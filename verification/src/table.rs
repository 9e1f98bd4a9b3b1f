//! The desktop table: the whole library once, narrowed to a scope, filtered
//! by the search box and sorted by a column — and the text of every cell.

use vstd::prelude::*;
use crate::sort::{
    compare_keys, key_order, part_order, key_view, keys_view, lemma_key_order, stable_order, stable_sort,
    before, ordered, has_pos, KeyPart, SpecPart,
};
use crate::text::{
    chars_of, contains_sub, decimal, decimal_i64, decimal_padded, decimal_padded_u64,
    decimal_u64, extend_chars, extend_str, has_prefix, has_sub, lemma_text_order_eq,
    signed_decimal, starts_with, string_of, text_order,
};

verus! {

/// What the table knows of a track beyond its tags: values the caller works
/// out with the shared crates (the real file behind a `#n` subsong path, the
/// console key and its label, the search-folded fields) and the one cell that
/// needs floating point (the size in megabytes, `"{:.1} MB"`).
pub struct TrackKeys {
    pub real_path: String,
    pub console_key: String,
    pub console_label: String,
    pub title_folded: String,
    pub artist_folded: String,
    pub album_folded: String,
    pub game_folded: String,
    pub album_artist_folded: String,
    pub size_mb: String,
}

/// One track of the library, as the table reads it.
pub struct Track {
    pub id: String,
    pub path: String,
    pub title: String,
    pub artist: String,
    pub album: String,
    pub album_artist: String,
    pub game: String,
    pub console_id: String,
    pub track_number: Option<u32>,
    pub disc_number: Option<u32>,
    pub duration_ms: i64,
    pub sample_rate: Option<u32>,
    pub channels: Option<u32>,
    pub bitrate: Option<u32>,
    pub codec: String,
    pub file_size: i64,
    pub rating: i32,
    pub keys: TrackKeys,
}

/// The two cell words that depend on the interface language.
pub struct CellWords {
    pub mono: String,
    pub stereo: String,
}

/// The table's columns, by their catalog key.
#[derive(PartialEq, Eq, Structural, Clone, Copy)]
pub enum Column {
    Playing,
    N,
    Title,
    Artist,
    Album,
    Game,
    Console,
    AlbumGame,
    AlbumArtist,
    Disc,
    Stars,
    Duration,
    Codec,
    Bitrate,
    SampleRate,
    Channels,
    Size,
    Path,
    Other,
}

/// The column a catalog key names.
pub open spec fn column_spec(key: Seq<char>) -> Column {
    if key == "playing"@ {
        Column::Playing
    } else if key == "n"@ {
        Column::N
    } else if key == "title"@ {
        Column::Title
    } else if key == "artist"@ {
        Column::Artist
    } else if key == "album"@ {
        Column::Album
    } else if key == "game"@ {
        Column::Game
    } else if key == "console"@ {
        Column::Console
    } else if key == "albumgame"@ {
        Column::AlbumGame
    } else if key == "albumartist"@ {
        Column::AlbumArtist
    } else if key == "disc"@ {
        Column::Disc
    } else if key == "stars"@ {
        Column::Stars
    } else if key == "duration"@ {
        Column::Duration
    } else if key == "codec"@ {
        Column::Codec
    } else if key == "bitrate"@ {
        Column::Bitrate
    } else if key == "samplerate"@ {
        Column::SampleRate
    } else if key == "channels"@ {
        Column::Channels
    } else if key == "size"@ {
        Column::Size
    } else if key == "path"@ {
        Column::Path
    } else {
        Column::Other
    }
}

fn same_chars(a: &[char], b: &[char]) -> (r: bool)
    ensures
        r == (a@ == b@),
{
    if a.len() != b.len() {
        return false;
    }
    let r = starts_with(a, b);
    assert(a@.take(b@.len() as int) =~= a@);
    r
}

fn is_key(k: &[char], lit: &str) -> (r: bool)
    ensures
        r == (k@ == lit@),
{
    let l = chars_of(lit);
    same_chars(k, l.as_slice())
}

/// The column a catalog key names.
pub fn column_of(key: &str) -> (c: Column)
    ensures
        c == column_spec(key@),
{
    let k = chars_of(key);
    let k = k.as_slice();
    if is_key(k, "playing") {
        Column::Playing
    } else if is_key(k, "n") {
        Column::N
    } else if is_key(k, "title") {
        Column::Title
    } else if is_key(k, "artist") {
        Column::Artist
    } else if is_key(k, "album") {
        Column::Album
    } else if is_key(k, "game") {
        Column::Game
    } else if is_key(k, "console") {
        Column::Console
    } else if is_key(k, "albumgame") {
        Column::AlbumGame
    } else if is_key(k, "albumartist") {
        Column::AlbumArtist
    } else if is_key(k, "disc") {
        Column::Disc
    } else if is_key(k, "stars") {
        Column::Stars
    } else if is_key(k, "duration") {
        Column::Duration
    } else if is_key(k, "codec") {
        Column::Codec
    } else if is_key(k, "bitrate") {
        Column::Bitrate
    } else if is_key(k, "samplerate") {
        Column::SampleRate
    } else if is_key(k, "channels") {
        Column::Channels
    } else if is_key(k, "size") {
        Column::Size
    } else if is_key(k, "path") {
        Column::Path
    } else {
        Column::Other
    }
}

// ---------------------------------------------------------------------------
// Stars
// ---------------------------------------------------------------------------

/// Five glyphs, filled up to the rating (clamped to 0..=5).
pub open spec fn stars_text(rating: i32) -> Seq<char> {
    let r: nat = if rating < 0 {
        0
    } else if rating > 5 {
        5
    } else {
        rating as nat
    };
    Seq::new(r, |i: int| '★') + Seq::new((5 - r) as nat, |i: int| '☆')
}

/// The rating as a display mode paints it: mode 1 is a single star, filled
/// when rated at all; any other mode is the full five.
pub open spec fn stars_mode_text(rating: i32, mode: i32) -> Seq<char> {
    if mode == 1 {
        if rating > 0 {
            seq!['★']
        } else {
            seq!['☆']
        }
    } else {
        stars_text(rating)
    }
}

fn stars_chars(rating: i32) -> (r: Vec<char>)
    ensures
        r@ == stars_text(rating),
{
    let n: usize = if rating < 0 {
        0
    } else if rating > 5 {
        5
    } else {
        rating as usize
    };
    let mut r: Vec<char> = Vec::new();
    let mut i: usize = 0;
    while i < 5
        invariant
            n <= 5,
            i <= 5,
            r@ == (if i <= n {
                Seq::new(i as nat, |j: int| '★')
            } else {
                Seq::new(n as nat, |j: int| '★') + Seq::new((i - n) as nat, |j: int| '☆')
            }),
        decreases 5 - i,
    {
        if i < n {
            r.push('★');
            assert(r@ =~= Seq::new((i + 1) as nat, |j: int| '★'));
        } else {
            r.push('☆');
            assert(r@ =~= Seq::new(n as nat, |j: int| '★') + Seq::new((i + 1 - n) as nat, |j: int| '☆'));
        }
        i += 1;
    }
    if n == 5 {
        assert(r@ =~= Seq::new(5, |j: int| '★') + Seq::new(0, |j: int| '☆'));
    }
    r
}

/// Five glyphs, filled up to the rating.
pub fn stars_for(rating: i32) -> (s: String)
    ensures
        s@ == stars_text(rating),
{
    let r = stars_chars(rating);
    string_of(r.as_slice())
}

/// The rating as the chosen display mode paints it.
pub fn stars_for_mode(rating: i32, mode: i32) -> (s: String)
    ensures
        s@ == stars_mode_text(rating, mode),
{
    if mode == 1 {
        let mut r: Vec<char> = Vec::new();
        r.push(if rating > 0 { '★' } else { '☆' });
        string_of(r.as_slice())
    } else {
        stars_for(rating)
    }
}

// ---------------------------------------------------------------------------
// Cells
// ---------------------------------------------------------------------------

/// Integer division rounding toward zero, as Rust's `/` does.
pub open spec fn tdiv(a: int, b: int) -> int {
    if a < 0 {
        -((-a) / b)
    } else {
        a / b
    }
}

/// The remainder that goes with [`tdiv`], as Rust's `%` does.
pub open spec fn tmod(a: int, b: int) -> int {
    if a < 0 {
        -((-a) % b)
    } else {
        a % b
    }
}

/// `n` as `{:02}` prints it: zero-padded to two digits, a negative number as is.
pub open spec fn two_digits(n: int) -> Seq<char> {
    if n < 0 {
        signed_decimal(n)
    } else {
        decimal_padded(n as nat, 2)
    }
}

/// A duration in milliseconds as `m:ss`.
pub open spec fn duration_text(ms: int) -> Seq<char> {
    signed_decimal(tdiv(ms, 60000)) + seq![':'] + two_digits(tmod(tdiv(ms, 1000), 60))
}

/// An optional count, or nothing.
pub open spec fn opt_decimal(o: Option<u32>) -> Seq<char> {
    match o {
        Some(n) => decimal(n as nat),
        None => Seq::empty(),
    }
}

/// A file size: nothing when unknown, whole kilobytes below a megabyte, the
/// caller's megabyte text above.
pub open spec fn size_text(size: i64, mb: Seq<char>) -> Seq<char> {
    if size <= 0 {
        Seq::empty()
    } else if size < 1048576 {
        decimal((size / 1024) as nat) + " KB"@
    } else {
        mb
    }
}

/// The text of one cell.
pub open spec fn cell_text(t: Track, c: Column, prefers_game: bool, star_mode: i32, words: CellWords) -> Seq<char> {
    match c {
        Column::AlbumGame => {
            let first = if prefers_game { t.game@ } else { t.album@ };
            let second = if prefers_game { t.album@ } else { t.game@ };
            if first.len() == 0 {
                second
            } else {
                first
            }
        },
        Column::N => opt_decimal(t.track_number),
        Column::Title => if t.title@.len() == 0 {
            t.path@
        } else {
            t.title@
        },
        Column::Artist => t.artist@,
        Column::Album => t.album@,
        Column::Game => t.game@,
        Column::Console => t.keys.console_label@,
        Column::AlbumArtist => t.album_artist@,
        Column::Disc => opt_decimal(t.disc_number),
        Column::SampleRate => match t.sample_rate {
            Some(r) => decimal(r as nat) + " Hz"@,
            None => Seq::empty(),
        },
        Column::Channels => match t.channels {
            Some(n) => if n == 1 {
                words.mono@
            } else if n == 2 {
                words.stereo@
            } else {
                decimal(n as nat)
            },
            None => Seq::empty(),
        },
        Column::Playing => Seq::empty(),
        Column::Stars => stars_mode_text(t.rating, star_mode),
        Column::Duration => duration_text(t.duration_ms as int),
        Column::Codec => t.codec@,
        Column::Bitrate => match t.bitrate {
            Some(b) => decimal(b as nat) + " kbps"@,
            None => Seq::empty(),
        },
        Column::Size => size_text(t.file_size, t.keys.size_mb@),
        Column::Path => t.path@,
        Column::Other => Seq::empty(),
    }
}

/// Each column named for a field of the track shows that field: the
/// artist column the artist, the album column the album, and so on; the
/// title column shows the title, or the path for a track without one.
pub proof fn columns_show_their_own_fields(t: Track, prefers_game: bool, star_mode: i32, words: CellWords)
    ensures
        cell_text(t, column_spec("artist"@), prefers_game, star_mode, words) == t.artist@,
        cell_text(t, column_spec("album"@), prefers_game, star_mode, words) == t.album@,
        cell_text(t, column_spec("game"@), prefers_game, star_mode, words) == t.game@,
        cell_text(t, column_spec("albumartist"@), prefers_game, star_mode, words) == t.album_artist@,
        cell_text(t, column_spec("codec"@), prefers_game, star_mode, words) == t.codec@,
        cell_text(t, column_spec("path"@), prefers_game, star_mode, words) == t.path@,
        cell_text(t, column_spec("console"@), prefers_game, star_mode, words) == t.keys.console_label@,
        cell_text(t, column_spec("title"@), prefers_game, star_mode, words)
            == (if t.title@.len() == 0 { t.path@ } else { t.title@ }),
{
    assert(column_spec("title"@) == Column::Title) by {
        reveal_strlit("playing");
        reveal_strlit("n");
        reveal_strlit("title");
        assert("title"@.len() != "playing"@.len());
        assert("title"@.len() != "n"@.len());
    }
    assert(column_spec("artist"@) == Column::Artist) by {
        reveal_strlit("playing");
        reveal_strlit("n");
        reveal_strlit("title");
        reveal_strlit("artist");
        assert("artist"@.len() != "playing"@.len());
        assert("artist"@.len() != "n"@.len());
        assert("artist"@.len() != "title"@.len());
    }
    assert(column_spec("album"@) == Column::Album) by {
        reveal_strlit("playing");
        reveal_strlit("n");
        reveal_strlit("title");
        reveal_strlit("artist");
        reveal_strlit("album");
        assert("album"@.len() != "playing"@.len());
        assert("album"@.len() != "n"@.len());
        assert("album"@[0] != "title"@[0]);
        assert("album"@.len() != "artist"@.len());
    }
    assert(column_spec("game"@) == Column::Game) by {
        reveal_strlit("playing");
        reveal_strlit("n");
        reveal_strlit("title");
        reveal_strlit("artist");
        reveal_strlit("album");
        reveal_strlit("game");
        assert("game"@.len() != "playing"@.len());
        assert("game"@.len() != "n"@.len());
        assert("game"@.len() != "title"@.len());
        assert("game"@.len() != "artist"@.len());
        assert("game"@.len() != "album"@.len());
    }
    assert(column_spec("console"@) == Column::Console) by {
        reveal_strlit("playing");
        reveal_strlit("n");
        reveal_strlit("title");
        reveal_strlit("artist");
        reveal_strlit("album");
        reveal_strlit("game");
        reveal_strlit("console");
        assert("console"@[0] != "playing"@[0]);
        assert("console"@.len() != "n"@.len());
        assert("console"@.len() != "title"@.len());
        assert("console"@.len() != "artist"@.len());
        assert("console"@.len() != "album"@.len());
        assert("console"@.len() != "game"@.len());
    }
    assert(column_spec("albumartist"@) == Column::AlbumArtist) by {
        reveal_strlit("playing");
        reveal_strlit("n");
        reveal_strlit("title");
        reveal_strlit("artist");
        reveal_strlit("album");
        reveal_strlit("game");
        reveal_strlit("console");
        reveal_strlit("albumgame");
        reveal_strlit("albumartist");
        assert("albumartist"@.len() != "playing"@.len());
        assert("albumartist"@.len() != "n"@.len());
        assert("albumartist"@.len() != "title"@.len());
        assert("albumartist"@.len() != "artist"@.len());
        assert("albumartist"@.len() != "album"@.len());
        assert("albumartist"@.len() != "game"@.len());
        assert("albumartist"@.len() != "console"@.len());
        assert("albumartist"@.len() != "albumgame"@.len());
    }
    assert(column_spec("codec"@) == Column::Codec) by {
        reveal_strlit("playing");
        reveal_strlit("n");
        reveal_strlit("title");
        reveal_strlit("artist");
        reveal_strlit("album");
        reveal_strlit("game");
        reveal_strlit("console");
        reveal_strlit("albumgame");
        reveal_strlit("albumartist");
        reveal_strlit("disc");
        reveal_strlit("stars");
        reveal_strlit("duration");
        reveal_strlit("codec");
        assert("codec"@.len() != "playing"@.len());
        assert("codec"@.len() != "n"@.len());
        assert("codec"@[0] != "title"@[0]);
        assert("codec"@.len() != "artist"@.len());
        assert("codec"@[0] != "album"@[0]);
        assert("codec"@.len() != "game"@.len());
        assert("codec"@.len() != "console"@.len());
        assert("codec"@.len() != "albumgame"@.len());
        assert("codec"@.len() != "albumartist"@.len());
        assert("codec"@.len() != "disc"@.len());
        assert("codec"@[0] != "stars"@[0]);
        assert("codec"@.len() != "duration"@.len());
    }
    assert(column_spec("path"@) == Column::Path) by {
        reveal_strlit("playing");
        reveal_strlit("n");
        reveal_strlit("title");
        reveal_strlit("artist");
        reveal_strlit("album");
        reveal_strlit("game");
        reveal_strlit("console");
        reveal_strlit("albumgame");
        reveal_strlit("albumartist");
        reveal_strlit("disc");
        reveal_strlit("stars");
        reveal_strlit("duration");
        reveal_strlit("codec");
        reveal_strlit("bitrate");
        reveal_strlit("samplerate");
        reveal_strlit("channels");
        reveal_strlit("size");
        reveal_strlit("path");
        assert("path"@.len() != "playing"@.len());
        assert("path"@.len() != "n"@.len());
        assert("path"@.len() != "title"@.len());
        assert("path"@.len() != "artist"@.len());
        assert("path"@.len() != "album"@.len());
        assert("path"@[0] != "game"@[0]);
        assert("path"@.len() != "console"@.len());
        assert("path"@.len() != "albumgame"@.len());
        assert("path"@.len() != "albumartist"@.len());
        assert("path"@[0] != "disc"@[0]);
        assert("path"@.len() != "stars"@.len());
        assert("path"@.len() != "duration"@.len());
        assert("path"@.len() != "codec"@.len());
        assert("path"@.len() != "bitrate"@.len());
        assert("path"@.len() != "samplerate"@.len());
        assert("path"@.len() != "channels"@.len());
        assert("path"@[0] != "size"@[0]);
    }
}

/// The other columns show what their names say: the number and disc
/// columns the track and disc numbers in decimal (nothing when unknown),
/// the album/game column the preferred of the two names or the other when
/// it is empty, the duration as minutes and seconds, the rate columns
/// their numbers with their units, the size in whole kilobytes below a
/// megabyte, the stars from the rating, and the channels as mono, stereo
/// or a count; the "now playing" column is left for the marker.
pub proof fn other_columns_show_what_they_name(t: Track, prefers_game: bool, star_mode: i32, words: CellWords)
    ensures
        cell_text(t, column_spec("n"@), prefers_game, star_mode, words)
            == (match t.track_number { Some(n) => decimal(n as nat), None => Seq::<char>::empty() }),
        cell_text(t, column_spec("disc"@), prefers_game, star_mode, words)
            == (match t.disc_number { Some(n) => decimal(n as nat), None => Seq::<char>::empty() }),
        cell_text(t, column_spec("albumgame"@), prefers_game, star_mode, words) == ({
            let (first, second) = if prefers_game { (t.game@, t.album@) } else { (t.album@, t.game@) };
            if first.len() > 0 { first } else { second }
        }),
        cell_text(t, column_spec("duration"@), prefers_game, star_mode, words)
            == signed_decimal(tdiv(t.duration_ms as int, 60000)) + seq![':'] + two_digits(tmod(tdiv(t.duration_ms as int, 1000), 60)),
        cell_text(t, column_spec("bitrate"@), prefers_game, star_mode, words)
            == (match t.bitrate { Some(b) => decimal(b as nat) + " kbps"@, None => Seq::<char>::empty() }),
        cell_text(t, column_spec("samplerate"@), prefers_game, star_mode, words)
            == (match t.sample_rate { Some(r) => decimal(r as nat) + " Hz"@, None => Seq::<char>::empty() }),
        0 < t.file_size < 1048576 ==> cell_text(t, column_spec("size"@), prefers_game, star_mode, words)
            == decimal((t.file_size / 1024) as nat) + " KB"@,
        t.file_size <= 0 ==> cell_text(t, column_spec("size"@), prefers_game, star_mode, words).len() == 0,
        cell_text(t, column_spec("stars"@), prefers_game, star_mode, words) == stars_mode_text(t.rating, star_mode),
        t.channels == Some(1u32) ==> cell_text(t, column_spec("channels"@), prefers_game, star_mode, words) == words.mono@,
        t.channels == Some(2u32) ==> cell_text(t, column_spec("channels"@), prefers_game, star_mode, words) == words.stereo@,
        cell_text(t, column_spec("playing"@), prefers_game, star_mode, words).len() == 0,
{
    assert(column_spec("playing"@) == Column::Playing) by {
        reveal_strlit("playing");
    }
    assert(column_spec("n"@) == Column::N) by {
        reveal_strlit("playing");
        reveal_strlit("n");
        assert("n"@.len() != "playing"@.len());
    }
    assert(column_spec("albumgame"@) == Column::AlbumGame) by {
        reveal_strlit("playing");
        reveal_strlit("n");
        reveal_strlit("title");
        reveal_strlit("artist");
        reveal_strlit("album");
        reveal_strlit("game");
        reveal_strlit("console");
        reveal_strlit("albumgame");
        assert("albumgame"@.len() != "playing"@.len());
        assert("albumgame"@.len() != "n"@.len());
        assert("albumgame"@.len() != "title"@.len());
        assert("albumgame"@.len() != "artist"@.len());
        assert("albumgame"@.len() != "album"@.len());
        assert("albumgame"@.len() != "game"@.len());
        assert("albumgame"@.len() != "console"@.len());
    }
    assert(column_spec("disc"@) == Column::Disc) by {
        reveal_strlit("playing");
        reveal_strlit("n");
        reveal_strlit("title");
        reveal_strlit("artist");
        reveal_strlit("album");
        reveal_strlit("game");
        reveal_strlit("console");
        reveal_strlit("albumgame");
        reveal_strlit("albumartist");
        reveal_strlit("disc");
        assert("disc"@.len() != "playing"@.len());
        assert("disc"@.len() != "n"@.len());
        assert("disc"@.len() != "title"@.len());
        assert("disc"@.len() != "artist"@.len());
        assert("disc"@.len() != "album"@.len());
        assert("disc"@[0] != "game"@[0]);
        assert("disc"@.len() != "console"@.len());
        assert("disc"@.len() != "albumgame"@.len());
        assert("disc"@.len() != "albumartist"@.len());
    }
    assert(column_spec("stars"@) == Column::Stars) by {
        reveal_strlit("playing");
        reveal_strlit("n");
        reveal_strlit("title");
        reveal_strlit("artist");
        reveal_strlit("album");
        reveal_strlit("game");
        reveal_strlit("console");
        reveal_strlit("albumgame");
        reveal_strlit("albumartist");
        reveal_strlit("disc");
        reveal_strlit("stars");
        assert("stars"@.len() != "playing"@.len());
        assert("stars"@.len() != "n"@.len());
        assert("stars"@[0] != "title"@[0]);
        assert("stars"@.len() != "artist"@.len());
        assert("stars"@[0] != "album"@[0]);
        assert("stars"@.len() != "game"@.len());
        assert("stars"@.len() != "console"@.len());
        assert("stars"@.len() != "albumgame"@.len());
        assert("stars"@.len() != "albumartist"@.len());
        assert("stars"@.len() != "disc"@.len());
    }
    assert(column_spec("duration"@) == Column::Duration) by {
        reveal_strlit("playing");
        reveal_strlit("n");
        reveal_strlit("title");
        reveal_strlit("artist");
        reveal_strlit("album");
        reveal_strlit("game");
        reveal_strlit("console");
        reveal_strlit("albumgame");
        reveal_strlit("albumartist");
        reveal_strlit("disc");
        reveal_strlit("stars");
        reveal_strlit("duration");
        assert("duration"@.len() != "playing"@.len());
        assert("duration"@.len() != "n"@.len());
        assert("duration"@.len() != "title"@.len());
        assert("duration"@.len() != "artist"@.len());
        assert("duration"@.len() != "album"@.len());
        assert("duration"@.len() != "game"@.len());
        assert("duration"@.len() != "console"@.len());
        assert("duration"@.len() != "albumgame"@.len());
        assert("duration"@.len() != "albumartist"@.len());
        assert("duration"@.len() != "disc"@.len());
        assert("duration"@.len() != "stars"@.len());
    }
    assert(column_spec("bitrate"@) == Column::Bitrate) by {
        reveal_strlit("playing");
        reveal_strlit("n");
        reveal_strlit("title");
        reveal_strlit("artist");
        reveal_strlit("album");
        reveal_strlit("game");
        reveal_strlit("console");
        reveal_strlit("albumgame");
        reveal_strlit("albumartist");
        reveal_strlit("disc");
        reveal_strlit("stars");
        reveal_strlit("duration");
        reveal_strlit("codec");
        reveal_strlit("bitrate");
        assert("bitrate"@[0] != "playing"@[0]);
        assert("bitrate"@.len() != "n"@.len());
        assert("bitrate"@.len() != "title"@.len());
        assert("bitrate"@.len() != "artist"@.len());
        assert("bitrate"@.len() != "album"@.len());
        assert("bitrate"@.len() != "game"@.len());
        assert("bitrate"@[0] != "console"@[0]);
        assert("bitrate"@.len() != "albumgame"@.len());
        assert("bitrate"@.len() != "albumartist"@.len());
        assert("bitrate"@.len() != "disc"@.len());
        assert("bitrate"@.len() != "stars"@.len());
        assert("bitrate"@.len() != "duration"@.len());
        assert("bitrate"@.len() != "codec"@.len());
    }
    assert(column_spec("samplerate"@) == Column::SampleRate) by {
        reveal_strlit("playing");
        reveal_strlit("n");
        reveal_strlit("title");
        reveal_strlit("artist");
        reveal_strlit("album");
        reveal_strlit("game");
        reveal_strlit("console");
        reveal_strlit("albumgame");
        reveal_strlit("albumartist");
        reveal_strlit("disc");
        reveal_strlit("stars");
        reveal_strlit("duration");
        reveal_strlit("codec");
        reveal_strlit("bitrate");
        reveal_strlit("samplerate");
        assert("samplerate"@.len() != "playing"@.len());
        assert("samplerate"@.len() != "n"@.len());
        assert("samplerate"@.len() != "title"@.len());
        assert("samplerate"@.len() != "artist"@.len());
        assert("samplerate"@.len() != "album"@.len());
        assert("samplerate"@.len() != "game"@.len());
        assert("samplerate"@.len() != "console"@.len());
        assert("samplerate"@.len() != "albumgame"@.len());
        assert("samplerate"@.len() != "albumartist"@.len());
        assert("samplerate"@.len() != "disc"@.len());
        assert("samplerate"@.len() != "stars"@.len());
        assert("samplerate"@.len() != "duration"@.len());
        assert("samplerate"@.len() != "codec"@.len());
        assert("samplerate"@.len() != "bitrate"@.len());
    }
    assert(column_spec("channels"@) == Column::Channels) by {
        reveal_strlit("playing");
        reveal_strlit("n");
        reveal_strlit("title");
        reveal_strlit("artist");
        reveal_strlit("album");
        reveal_strlit("game");
        reveal_strlit("console");
        reveal_strlit("albumgame");
        reveal_strlit("albumartist");
        reveal_strlit("disc");
        reveal_strlit("stars");
        reveal_strlit("duration");
        reveal_strlit("codec");
        reveal_strlit("bitrate");
        reveal_strlit("samplerate");
        reveal_strlit("channels");
        assert("channels"@.len() != "playing"@.len());
        assert("channels"@.len() != "n"@.len());
        assert("channels"@.len() != "title"@.len());
        assert("channels"@.len() != "artist"@.len());
        assert("channels"@.len() != "album"@.len());
        assert("channels"@.len() != "game"@.len());
        assert("channels"@.len() != "console"@.len());
        assert("channels"@.len() != "albumgame"@.len());
        assert("channels"@.len() != "albumartist"@.len());
        assert("channels"@.len() != "disc"@.len());
        assert("channels"@.len() != "stars"@.len());
        assert("channels"@[0] != "duration"@[0]);
        assert("channels"@.len() != "codec"@.len());
        assert("channels"@.len() != "bitrate"@.len());
        assert("channels"@.len() != "samplerate"@.len());
    }
    assert(column_spec("size"@) == Column::Size) by {
        reveal_strlit("playing");
        reveal_strlit("n");
        reveal_strlit("title");
        reveal_strlit("artist");
        reveal_strlit("album");
        reveal_strlit("game");
        reveal_strlit("console");
        reveal_strlit("albumgame");
        reveal_strlit("albumartist");
        reveal_strlit("disc");
        reveal_strlit("stars");
        reveal_strlit("duration");
        reveal_strlit("codec");
        reveal_strlit("bitrate");
        reveal_strlit("samplerate");
        reveal_strlit("channels");
        reveal_strlit("size");
        assert("size"@.len() != "playing"@.len());
        assert("size"@.len() != "n"@.len());
        assert("size"@.len() != "title"@.len());
        assert("size"@.len() != "artist"@.len());
        assert("size"@.len() != "album"@.len());
        assert("size"@[0] != "game"@[0]);
        assert("size"@.len() != "console"@.len());
        assert("size"@.len() != "albumgame"@.len());
        assert("size"@.len() != "albumartist"@.len());
        assert("size"@[0] != "disc"@[0]);
        assert("size"@.len() != "stars"@.len());
        assert("size"@.len() != "duration"@.len());
        assert("size"@.len() != "codec"@.len());
        assert("size"@.len() != "bitrate"@.len());
        assert("size"@.len() != "samplerate"@.len());
        assert("size"@.len() != "channels"@.len());
    }
}

fn text_chars(s: &String) -> (r: Vec<char>)
    ensures
        r@ == s@,
{
    chars_of(s.as_str())
}

fn opt_decimal_chars(o: Option<u32>) -> (r: Vec<char>)
    ensures
        r@ == opt_decimal(o),
{
    match o {
        Some(n) => decimal_u64(n as u64),
        None => Vec::new(),
    }
}

fn duration_chars(ms: i64) -> (r: Vec<char>)
    ensures
        r@ == duration_text(ms as int),
{
    let m = ms / 60000;
    let s = (ms / 1000) % 60;
    let mut r = decimal_i64(m);
    r.push(':');
    if s < 0 {
        let d = decimal_i64(s);
        extend_chars(&mut r, d.as_slice());
    } else {
        let d = decimal_padded_u64(s as u64, 2);
        extend_chars(&mut r, d.as_slice());
    }
    r
}

fn cell_chars(t: &Track, c: Column, prefers_game: bool, star_mode: i32, words: &CellWords) -> (r: Vec<char>)
    ensures
        r@ == cell_text(*t, c, prefers_game, star_mode, *words),
{
    match c {
        Column::AlbumGame => {
            let (first, second) = if prefers_game {
                (&t.game, &t.album)
            } else {
                (&t.album, &t.game)
            };
            if first.as_str().is_empty() {
                text_chars(second)
            } else {
                text_chars(first)
            }
        },
        Column::N => opt_decimal_chars(t.track_number),
        Column::Title => {
            if t.title.as_str().is_empty() {
                text_chars(&t.path)
            } else {
                text_chars(&t.title)
            }
        },
        Column::Artist => text_chars(&t.artist),
        Column::Album => text_chars(&t.album),
        Column::Game => text_chars(&t.game),
        Column::Console => text_chars(&t.keys.console_label),
        Column::AlbumArtist => text_chars(&t.album_artist),
        Column::Disc => opt_decimal_chars(t.disc_number),
        Column::SampleRate => match t.sample_rate {
            Some(r) => {
                let mut v = decimal_u64(r as u64);
                extend_str(&mut v, " Hz");
                v
            },
            None => Vec::new(),
        },
        Column::Channels => match t.channels {
            Some(n) => {
                if n == 1 {
                    text_chars(&words.mono)
                } else if n == 2 {
                    text_chars(&words.stereo)
                } else {
                    decimal_u64(n as u64)
                }
            },
            None => Vec::new(),
        },
        Column::Playing => Vec::new(),
        Column::Stars => {
            let s = stars_for_mode(t.rating, star_mode);
            text_chars(&s)
        },
        Column::Duration => duration_chars(t.duration_ms),
        Column::Codec => text_chars(&t.codec),
        Column::Bitrate => match t.bitrate {
            Some(b) => {
                let mut v = decimal_u64(b as u64);
                extend_str(&mut v, " kbps");
                v
            },
            None => Vec::new(),
        },
        Column::Size => {
            if t.file_size <= 0 {
                Vec::new()
            } else if t.file_size < 1048576 {
                let mut v = decimal_u64((t.file_size / 1024) as u64);
                extend_str(&mut v, " KB");
                v
            } else {
                text_chars(&t.keys.size_mb)
            }
        },
        Column::Path => text_chars(&t.path),
        Column::Other => Vec::new(),
    }
}

/// One cell, painted: the text the table shows for `key` in the row of `t`.
pub fn cell_for(t: &Track, key: &str, prefers_game: bool, star_mode: i32, words: &CellWords) -> (s: String)
    ensures
        s@ == cell_text(*t, column_spec(key@), prefers_game, star_mode, *words),
{
    let c = column_of(key);
    let r = cell_chars(t, c, prefers_game, star_mode, words);
    string_of(r.as_slice())
}


// ---------------------------------------------------------------------------
// Scope
// ---------------------------------------------------------------------------

/// What the table is narrowed to.
pub enum Scope {
    Library,
    Faved,
    Folder(String),
    Console(String),
    /// Ordered track ids, plus the playlist id for the sidebar highlight.
    Playlist { ids: Vec<String>, id: String },
    /// The user queue, by ordered path.
    Queue { paths: Vec<String> },
    /// One game, by its name.
    Game(String),
}

/// (kind, id) for the sidebar to know what to light up.
pub open spec fn tag_spec(scope: Scope) -> (Seq<char>, Seq<char>) {
    match scope {
        Scope::Folder(_) => ("folder"@, Seq::empty()),
        Scope::Console(id) => ("console"@, id@),
        Scope::Playlist { ids, id } => ("playlist"@, id@),
        Scope::Queue { paths } => ("queue"@, Seq::empty()),
        Scope::Game(_) => ("game"@, Seq::empty()),
        _ => (Seq::empty(), Seq::empty()),
    }
}

impl Scope {
    /// (kind, id) for the sidebar to know what to light up.
    pub fn tag(&self) -> (r: (&'static str, &str))
        ensures
            (r.0@, r.1@) == tag_spec(*self),
    {
        proof {
            reveal_strlit("");
        }
        match self {
            Scope::Folder(_) => ("folder", ""),
            Scope::Console(id) => ("console", id.as_str()),
            Scope::Playlist { id, .. } => ("playlist", id.as_str()),
            Scope::Queue { .. } => ("queue", ""),
            Scope::Game(_) => ("game", ""),
            _ => ("", ""),
        }
    }
}

/// Whether a track belongs to a scope that filters the whole library
/// (library, favourites, a folder, a console).
pub open spec fn scope_keeps(t: Track, scope: Scope) -> bool {
    match scope {
        Scope::Faved => t.rating > 0,
        Scope::Folder(f) => {
            let rp = t.keys.real_path@;
            has_prefix(rp, f@) && rp.len() > f@.len() && rp[f@.len() as int] == '/'
        },
        Scope::Console(c) => t.keys.console_key@ == c@,
        _ => true,
    }
}

/// The positions `0..n` of `all` that a filtering scope keeps, in order.
pub open spec fn kept_positions(all: Seq<Track>, scope: Scope, n: int) -> Seq<usize>
    decreases n,
{
    if n <= 0 {
        Seq::empty()
    } else {
        let prev = kept_positions(all, scope, n - 1);
        if scope_keeps(all[n - 1], scope) {
            prev.push((n - 1) as usize)
        } else {
            prev
        }
    }
}

/// The last position holding `q`, as a map built from the whole list keeps
/// the last of several equal keys.
pub open spec fn last_index_with(texts: Seq<Seq<char>>, q: Seq<char>) -> Option<int> {
    if exists|i: int| 0 <= i < texts.len() && texts[i] == q && (forall|j: int| i < j < texts.len() ==> texts[j] != q) {
        Some(choose|i: int| 0 <= i < texts.len() && texts[i] == q && (forall|j: int| i < j < texts.len() ==> texts[j] != q))
    } else {
        None
    }
}

pub open spec fn track_paths(all: Seq<Track>) -> Seq<Seq<char>> {
    all.map_values(|t: Track| t.path@)
}

pub open spec fn track_ids(all: Seq<Track>) -> Seq<Seq<char>> {
    all.map_values(|t: Track| t.id@)
}

/// Each wanted text resolved to the last position that holds it; the ones
/// nobody holds drop out.
pub open spec fn resolve(texts: Seq<Seq<char>>, wanted: Seq<String>) -> Seq<usize>
    decreases wanted.len(),
{
    if wanted.len() == 0 {
        Seq::empty()
    } else {
        let prev = resolve(texts, wanted.drop_last());
        match last_index_with(texts, wanted.last()@) {
            Some(i) => prev.push(i as usize),
            None => prev,
        }
    }
}

/// Positions in range, in the order given.
pub open spec fn in_range(members: Seq<usize>, n: int) -> Seq<usize>
    decreases members.len(),
{
    if members.len() == 0 {
        Seq::empty()
    } else {
        let prev = in_range(members.drop_last(), n);
        if (members.last() as int) < n {
            prev.push(members.last())
        } else {
            prev
        }
    }
}

/// The scope's base set, before the search box: a queue by path and a
/// playlist by id in their own order, a game as the caller grouped it, and
/// every other scope as a filter over the library in library order.
pub open spec fn base_positions(all: Seq<Track>, scope: Scope, game_members: Seq<usize>) -> Seq<usize> {
    match scope {
        Scope::Queue { paths } => resolve(track_paths(all), paths@),
        Scope::Playlist { ids, id } => resolve(track_ids(all), ids@),
        Scope::Game(_) => in_range(game_members, all.len() as int),
        _ => kept_positions(all, scope, all.len() as int),
    }
}

/// Whether a track matches the (folded) search text: in its title, artist
/// or game.
pub open spec fn needle_keeps(t: Track, needle: Seq<char>) -> bool {
    needle.len() == 0 || has_sub(t.keys.title_folded@, needle) || has_sub(t.keys.artist_folded@, needle)
        || has_sub(t.keys.game_folded@, needle)
}

pub open spec fn needle_filter(all: Seq<Track>, base: Seq<usize>, needle: Seq<char>) -> Seq<usize>
    decreases base.len(),
{
    if base.len() == 0 {
        Seq::empty()
    } else {
        let prev = needle_filter(all, base.drop_last(), needle);
        if needle_keeps(all[base.last() as int], needle) {
            prev.push(base.last())
        } else {
            prev
        }
    }
}

/// A playlist or the queue under the `__scope__` sort keeps its own order.
pub open spec fn keeps_scope_order(scope: Scope, sort_key: Seq<char>) -> bool {
    (scope is Playlist || scope is Queue) && sort_key == "__scope__"@
}

/// What a track is sorted by under a column (a title sort for any key that
/// is not a sortable column).
pub open spec fn sort_key_spec(t: Track, c: Column, prefers_game: bool) -> Seq<SpecPart> {
    match c {
        Column::N => seq![SpecPart::Int(match t.track_number { Some(n) => n as int, None => 0 })],
        Column::Artist => seq![SpecPart::Text(t.keys.artist_folded@)],
        Column::Album => seq![SpecPart::Text(t.keys.album_folded@)],
        Column::Game => seq![SpecPart::Text(t.keys.game_folded@)],
        Column::Console => seq![SpecPart::Text(t.keys.console_label@)],
        Column::AlbumGame => {
            let first_raw = if prefers_game { t.game@ } else { t.album@ };
            let first = if prefers_game { t.keys.game_folded@ } else { t.keys.album_folded@ };
            let second = if prefers_game { t.keys.album_folded@ } else { t.keys.game_folded@ };
            seq![SpecPart::Text(if first_raw.len() == 0 { second } else { first })]
        },
        Column::AlbumArtist => seq![SpecPart::Text(t.keys.album_artist_folded@)],
        Column::Disc => seq![SpecPart::Int(match t.disc_number { Some(n) => n as int, None => 0 })],
        Column::SampleRate => seq![SpecPart::Int(match t.sample_rate { Some(n) => n as int, None => 0 })],
        Column::Channels => seq![SpecPart::Int(match t.channels { Some(n) => n as int, None => 0 })],
        Column::Stars => seq![SpecPart::Int(t.rating as int)],
        Column::Duration => seq![SpecPart::Int(t.duration_ms as int)],
        Column::Codec => seq![SpecPart::Text(t.codec@)],
        Column::Bitrate => seq![SpecPart::Int(match t.bitrate { Some(n) => n as int, None => 0 })],
        Column::Size => seq![SpecPart::Int(t.file_size as int)],
        Column::Path => seq![SpecPart::Text(t.path@)],
        _ => seq![SpecPart::Text(t.keys.title_folded@)],
    }
}

/// The sort keys of the listed positions.
pub open spec fn keys_of(all: Seq<Track>, shown: Seq<usize>, c: Column, prefers_game: bool) -> Seq<Seq<SpecPart>> {
    Seq::new(shown.len(), |k: int| sort_key_spec(all[shown[k] as int], c, prefers_game))
}

/// `perm` applied to `shown`, then turned round when descending.
pub open spec fn arranged(shown: Seq<usize>, perm: Seq<usize>, asc: bool) -> Seq<usize> {
    let sorted = perm.map_values(|p: usize| shown[p as int]);
    if asc {
        sorted
    } else {
        sorted.reverse()
    }
}

/// The rows of the table, as positions in `all`: the scope's base set, what
/// the search keeps of it, and — unless a playlist or the queue keeps its
/// own order — a stable sort by the column, reversed when descending.
pub open spec fn table_order(
    all: Seq<Track>,
    scope: Scope,
    game_members: Seq<usize>,
    needle: Seq<char>,
    sort_key: Seq<char>,
    asc: bool,
    prefers_game: bool,
    order: Seq<usize>,
) -> bool {
    let shown = needle_filter(all, base_positions(all, scope, game_members), needle);
    if keeps_scope_order(scope, sort_key) {
        order == shown
    } else {
        exists|perm: Seq<usize>|
            stable_order(keys_of(all, shown, column_spec(sort_key), prefers_game), perm) && order == arranged(shown, perm, asc)
    }
}


// ---------------------------------------------------------------------------
// Building the order
// ---------------------------------------------------------------------------

fn scope_keeps_exec(t: &Track, scope: &Scope) -> (r: bool)
    ensures
        r == scope_keeps(*t, *scope),
{
    match scope {
        Scope::Faved => t.rating > 0,
        Scope::Folder(f) => {
            let rp = text_chars(&t.keys.real_path);
            let fc = text_chars(f);
            starts_with(rp.as_slice(), fc.as_slice()) && rp.len() > fc.len() && rp[fc.len()] == '/'
        },
        Scope::Console(c) => {
            let k = text_chars(&t.keys.console_key);
            let cc = text_chars(c);
            same_chars(k.as_slice(), cc.as_slice())
        },
        _ => true,
    }
}

fn kept_positions_exec(all: &Vec<Track>, scope: &Scope) -> (r: Vec<usize>)
    ensures
        r@ == kept_positions(all@, *scope, all@.len() as int),
{
    let mut r: Vec<usize> = Vec::new();
    let mut i: usize = 0;
    while i < all.len()
        invariant
            i <= all.len(),
            r@ == kept_positions(all@, *scope, i as int),
        decreases all.len() - i,
    {
        if scope_keeps_exec(&all[i], scope) {
            r.push(i);
        }
        i += 1;
    }
    r
}

proof fn lemma_single_text_order(a: Seq<char>, b: Seq<char>)
    ensures
        key_order(seq![SpecPart::Text(a)], seq![SpecPart::Text(b)]) == text_order(a, b),
{
    let x = seq![SpecPart::Text(a)];
    let y = seq![SpecPart::Text(b)];
    assert(x.drop_first() =~= Seq::<SpecPart>::empty());
    assert(y.drop_first() =~= Seq::<SpecPart>::empty());
    assert(x[0] == SpecPart::Text(a));
    assert(y[0] == SpecPart::Text(b));
    assert(key_order(x.drop_first(), y.drop_first()) == 0);
    assert(part_order(x[0], y[0]) == text_order(a, b));
}

fn text_key(v: Vec<char>) -> (k: Vec<KeyPart>)
    ensures
        key_view(k) == seq![SpecPart::Text(v@)],
{
    let mut k: Vec<KeyPart> = Vec::new();
    k.push(KeyPart::Text(v));
    assert(key_view(k) =~= seq![SpecPart::Text(v@)]);
    k
}

fn int_key(x: i64) -> (k: Vec<KeyPart>)
    ensures
        key_view(k) == seq![SpecPart::Int(x as int)],
{
    let mut k: Vec<KeyPart> = Vec::new();
    k.push(KeyPart::Int(x));
    assert(key_view(k) =~= seq![SpecPart::Int(x as int)]);
    k
}

/// The last position of `texts` that holds `q`, by binary search in their
/// stable order.
fn find_last(texts: Ghost<Seq<Seq<char>>>, keys: &Vec<Vec<KeyPart>>, order: &Vec<usize>, q: &Vec<char>) -> (r: Option<usize>)
    requires
        keys@.len() == texts@.len(),
        forall|i: int| 0 <= i < keys@.len() ==> key_view(#[trigger] keys@[i]) == seq![SpecPart::Text(texts@[i])],
        stable_order(keys_view(keys@), order@),
    ensures
        r matches Some(i) ==> last_index_with(texts@, q@) == Some(i as int),
        r is None ==> last_index_with(texts@, q@) is None,
{
    let ghost kv = keys_view(keys@);
    let ghost n = keys@.len() as int;
    let qk = text_key(slice_copy(q.as_slice()));
    assert forall|i: int| 0 <= i < n implies #[trigger] key_order(kv[i], key_view(qk)) == text_order(texts@[i], q@) by {
        assert(kv[i] == key_view(keys@[i]));
        lemma_single_text_order(texts@[i], q@);
    }
    let mut lo: usize = 0;
    let mut hi: usize = order.len();
    while lo < hi
        invariant
            kv == keys_view(keys@),
            n == keys@.len(),
            stable_order(kv, order@),
            key_view(qk) == seq![SpecPart::Text(q@)],
            forall|i: int| 0 <= i < n ==> #[trigger] key_order(kv[i], key_view(qk)) == text_order(texts@[i], q@),
            lo <= hi <= order@.len(),
            forall|k: int| 0 <= k < lo ==> text_order(texts@[order@[k] as int], q@) <= 0,
            forall|k: int| hi <= k < order@.len() ==> text_order(texts@[order@[k] as int], q@) > 0,
        decreases hi - lo,
    {
        let mid = lo + (hi - lo) / 2;
        let c = compare_keys(&keys[order[mid]], &qk);
        proof {
            assert(kv[order@[mid as int] as int] == key_view(keys@[order@[mid as int] as int]));
        }
        if c <= 0 {
            proof {
                assert forall|k: int| 0 <= k < mid + 1 implies text_order(texts@[order@[k] as int], q@) <= 0 by {
                    if k < mid {
                        assert(before(kv, order@[k] as int, order@[mid as int] as int));
                        lemma_key_order(kv[order@[k] as int], kv[order@[mid as int] as int], key_view(qk));
                    }
                }
            }
            lo = mid + 1;
        } else {
            proof {
                assert forall|k: int| mid <= k < order@.len() implies text_order(texts@[order@[k] as int], q@) > 0 by {
                    if k > mid {
                        assert(before(kv, order@[mid as int] as int, order@[k] as int));
                        lemma_key_order(key_view(qk), kv[order@[mid as int] as int], kv[order@[k] as int]);
                        lemma_key_order(kv[order@[mid as int] as int], key_view(qk), kv[order@[k] as int]);
                        lemma_key_order(kv[order@[k] as int], key_view(qk), kv[order@[k] as int]);
                    }
                }
            }
            hi = mid;
        }
    }
    if lo > 0 {
        let p = order[lo - 1];
        let c = compare_keys(&keys[p], &qk);
        proof {
            assert(kv[p as int] == key_view(keys@[p as int]));
        }
        if c == 0 {
            proof {
                lemma_text_order_eq(texts@[p as int], q@);
                assert forall|j: int| p < j < n implies texts@[j] != q@ by {
                    if texts@[j] == q@ {
                        lemma_text_order_eq(texts@[j], q@);
                        assert(has_pos(order@, j));
                        let k = choose|k: int| 0 <= k < order@.len() && order@[k] == j as usize;
                        assert(k < lo);
                        if k < lo - 1 {
                            assert(before(kv, order@[k] as int, p as int));
                            lemma_key_order(kv[j], kv[p as int], key_view(qk));
                            lemma_key_order(kv[p as int], kv[j], kv[p as int]);
                        }
                    }
                }
                assert(exists|i: int| 0 <= i < texts@.len() && texts@[i] == q@ && (forall|j: int| i < j < texts@.len() ==> texts@[j] != q@));
                let w = choose|i: int| 0 <= i < texts@.len() && texts@[i] == q@ && (forall|j: int| i < j < texts@.len() ==> texts@[j] != q@);
                if w != p as int {
                    if w < p as int {
                        assert(texts@[p as int] != q@);
                    } else {
                        assert(texts@[w] != q@);
                    }
                }
            }
            return Some(p);
        }
        proof {
            lemma_text_order_eq(texts@[p as int], q@);
        }
    }
    proof {
        assert forall|i: int| 0 <= i < n implies texts@[i] != q@ by {
            if texts@[i] == q@ {
                lemma_text_order_eq(texts@[i], q@);
                assert(has_pos(order@, i));
                let k = choose|k: int| 0 <= k < order@.len() && order@[k] == i as usize;
                assert(k < lo);
                let p = order@[lo - 1] as int;
                if k < lo - 1 {
                    assert(before(kv, i, p));
                    lemma_key_order(kv[i], kv[p], key_view(qk));
                    lemma_key_order(kv[p], kv[i], key_view(qk));
                }
                lemma_text_order_eq(texts@[p], q@);
            }
        }
    }
    None
}

fn slice_copy(v: &[char]) -> (r: Vec<char>)
    ensures
        r@ == v@,
{
    let mut r: Vec<char> = Vec::new();
    extend_chars(&mut r, v);
    r
}


fn text_keys(all: &Vec<Track>, by_id: bool) -> (keys: Vec<Vec<KeyPart>>)
    ensures
        keys@.len() == all@.len(),
        forall|i: int| 0 <= i < keys@.len() ==> key_view(#[trigger] keys@[i]) == seq![SpecPart::Text(
            (if by_id { track_ids(all@) } else { track_paths(all@) })[i],
        )],
{
    let ghost texts = if by_id { track_ids(all@) } else { track_paths(all@) };
    let mut keys: Vec<Vec<KeyPart>> = Vec::new();
    let mut i: usize = 0;
    while i < all.len()
        invariant
            i <= all.len(),
            texts == (if by_id { track_ids(all@) } else { track_paths(all@) }),
            keys@.len() == i,
            forall|j: int| 0 <= j < i ==> key_view(#[trigger] keys@[j]) == seq![SpecPart::Text(texts[j])],
        decreases all.len() - i,
    {
        let v = if by_id {
            text_chars(&all[i].id)
        } else {
            text_chars(&all[i].path)
        };
        keys.push(text_key(v));
        i += 1;
    }
    keys
}

fn resolve_exec(all: &Vec<Track>, wanted: &Vec<String>, by_id: bool) -> (r: Vec<usize>)
    ensures
        r@ == resolve(if by_id { track_ids(all@) } else { track_paths(all@) }, wanted@),
{
    let ghost texts = if by_id { track_ids(all@) } else { track_paths(all@) };
    let keys = text_keys(all, by_id);
    let order = stable_sort(&keys);
    let mut r: Vec<usize> = Vec::new();
    let mut i: usize = 0;
    while i < wanted.len()
        invariant
            i <= wanted.len(),
            texts == (if by_id { track_ids(all@) } else { track_paths(all@) }),
            keys@.len() == texts.len(),
            forall|j: int| 0 <= j < keys@.len() ==> key_view(#[trigger] keys@[j]) == seq![SpecPart::Text(texts[j])],
            stable_order(keys_view(keys@), order@),
            r@ == resolve(texts, wanted@.take(i as int)),
        decreases wanted.len() - i,
    {
        let q = text_chars(&wanted[i]);
        let found = find_last(Ghost(texts), &keys, &order, &q);
        assert(wanted@.take(i + 1).drop_last() == wanted@.take(i as int));
        if let Some(p) = found {
            r.push(p);
        }
        i += 1;
    }
    assert(wanted@.take(wanted.len() as int) == wanted@);
    r
}

fn in_range_exec(members: &Vec<usize>, n: usize) -> (r: Vec<usize>)
    ensures
        r@ == in_range(members@, n as int),
{
    let mut r: Vec<usize> = Vec::new();
    let mut i: usize = 0;
    while i < members.len()
        invariant
            i <= members.len(),
            r@ == in_range(members@.take(i as int), n as int),
        decreases members.len() - i,
    {
        assert(members@.take(i + 1).drop_last() == members@.take(i as int));
        if members[i] < n {
            r.push(members[i]);
        }
        i += 1;
    }
    assert(members@.take(members.len() as int) == members@);
    r
}

pub open spec fn positions_valid(s: Seq<usize>, n: int) -> bool {
    forall|k: int| 0 <= k < s.len() ==> (#[trigger] s[k] as int) < n
}

proof fn lemma_kept_valid(all: Seq<Track>, scope: Scope, n: int)
    requires
        0 <= n <= all.len(),
    ensures
        positions_valid(kept_positions(all, scope, n), all.len() as int),
    decreases n,
{
    if n > 0 {
        lemma_kept_valid(all, scope, n - 1);
    }
}

proof fn lemma_resolve_valid(texts: Seq<Seq<char>>, wanted: Seq<String>)
    ensures
        positions_valid(resolve(texts, wanted), texts.len() as int),
    decreases wanted.len(),
{
    if wanted.len() > 0 {
        lemma_resolve_valid(texts, wanted.drop_last());
    }
}

proof fn lemma_in_range_valid(members: Seq<usize>, n: int)
    ensures
        positions_valid(in_range(members, n), n),
    decreases members.len(),
{
    if members.len() > 0 {
        lemma_in_range_valid(members.drop_last(), n);
    }
}

proof fn lemma_base_valid(all: Seq<Track>, scope: Scope, game_members: Seq<usize>)
    ensures
        positions_valid(base_positions(all, scope, game_members), all.len() as int),
{
    match scope {
        Scope::Queue { paths } => lemma_resolve_valid(track_paths(all), paths@),
        Scope::Playlist { ids, id } => lemma_resolve_valid(track_ids(all), ids@),
        Scope::Game(_) => lemma_in_range_valid(game_members, all.len() as int),
        _ => lemma_kept_valid(all, scope, all.len() as int),
    }
}

fn needle_keeps_exec(t: &Track, needle: &[char]) -> (r: bool)
    ensures
        r == needle_keeps(*t, needle@),
{
    if needle.len() == 0 {
        return true;
    }
    let a = text_chars(&t.keys.title_folded);
    if contains_sub(a.as_slice(), needle) {
        return true;
    }
    let b = text_chars(&t.keys.artist_folded);
    if contains_sub(b.as_slice(), needle) {
        return true;
    }
    let c = text_chars(&t.keys.game_folded);
    contains_sub(c.as_slice(), needle)
}

proof fn lemma_needle_filter_valid(all: Seq<Track>, base: Seq<usize>, needle: Seq<char>)
    requires
        positions_valid(base, all.len() as int),
    ensures
        positions_valid(needle_filter(all, base, needle), all.len() as int),
    decreases base.len(),
{
    if base.len() > 0 {
        lemma_needle_filter_valid(all, base.drop_last(), needle);
    }
}

fn needle_filter_exec(all: &Vec<Track>, base: &Vec<usize>, needle: &[char]) -> (r: Vec<usize>)
    requires
        positions_valid(base@, all@.len() as int),
    ensures
        r@ == needle_filter(all@, base@, needle@),
{
    let mut r: Vec<usize> = Vec::new();
    let mut i: usize = 0;
    while i < base.len()
        invariant
            i <= base.len(),
            positions_valid(base@, all@.len() as int),
            r@ == needle_filter(all@, base@.take(i as int), needle@),
        decreases base.len() - i,
    {
        assert(base@.take(i + 1).drop_last() == base@.take(i as int));
        let p = base[i];
        if needle_keeps_exec(&all[p], needle) {
            r.push(p);
        }
        i += 1;
    }
    assert(base@.take(base.len() as int) == base@);
    r
}

fn key_for(t: &Track, c: Column, prefers_game: bool) -> (k: Vec<KeyPart>)
    ensures
        key_view(k) == sort_key_spec(*t, c, prefers_game),
{
    match c {
        Column::N => int_key(match t.track_number { Some(n) => n as i64, None => 0 }),
        Column::Artist => text_key(text_chars(&t.keys.artist_folded)),
        Column::Album => text_key(text_chars(&t.keys.album_folded)),
        Column::Game => text_key(text_chars(&t.keys.game_folded)),
        Column::Console => text_key(text_chars(&t.keys.console_label)),
        Column::AlbumGame => {
            let first_raw = if prefers_game { &t.game } else { &t.album };
            let first = if prefers_game { &t.keys.game_folded } else { &t.keys.album_folded };
            let second = if prefers_game { &t.keys.album_folded } else { &t.keys.game_folded };
            if first_raw.as_str().is_empty() {
                text_key(text_chars(second))
            } else {
                text_key(text_chars(first))
            }
        },
        Column::AlbumArtist => text_key(text_chars(&t.keys.album_artist_folded)),
        Column::Disc => int_key(match t.disc_number { Some(n) => n as i64, None => 0 }),
        Column::SampleRate => int_key(match t.sample_rate { Some(n) => n as i64, None => 0 }),
        Column::Channels => int_key(match t.channels { Some(n) => n as i64, None => 0 }),
        Column::Stars => int_key(t.rating as i64),
        Column::Duration => int_key(t.duration_ms),
        Column::Codec => text_key(text_chars(&t.codec)),
        Column::Bitrate => int_key(match t.bitrate { Some(n) => n as i64, None => 0 }),
        Column::Size => int_key(t.file_size),
        Column::Path => text_key(text_chars(&t.path)),
        _ => text_key(text_chars(&t.keys.title_folded)),
    }
}


// ---------------------------------------------------------------------------
// The table's state and its rebuild
// ---------------------------------------------------------------------------

/// The desktop table's world: the whole library, what the current scope,
/// filter and sort make of it, and how it is shown.
pub struct TableState {
    pub all: Vec<Track>,
    /// The rows, as positions in `all`, in display order.
    pub tracks: Vec<usize>,
    pub sort_key: String,
    pub asc: bool,
    pub filter: String,
    /// Which catalog columns are visible, in display order.
    pub visible: Vec<String>,
    pub scope: Scope,
    pub built: bool,
    /// Selected rows, by index into `tracks`. Cleared on every rebuild.
    pub selected: Vec<usize>,
    /// Where a Shift-range grows from.
    pub anchor: usize,
    /// «Álbum / Juego» shows the game first rather than the album.
    pub album_game_prefers_game: bool,
    /// How the ★ column paints a rating: 0 the full five, 1 a single star.
    pub star_mode: i32,
    /// Bumped by every rebuild.
    pub stamp: u64,
}

/// The columns shown before the user changes anything.
pub open spec fn default_columns() -> Seq<Seq<char>> {
    seq!["playing"@, "n"@, "title"@, "artist"@, "game"@, "console"@, "stars"@, "duration"@]
}

pub open spec fn string_views(v: Seq<String>) -> Seq<Seq<char>> {
    v.map_values(|s: String| s@)
}

fn owned(lit: &str) -> (s: String)
    ensures
        s@ == lit@,
{
    let c = chars_of(lit);
    string_of(c.as_slice())
}

impl TableState {
    /// By title, ascending, over the default columns, the whole library.
    pub fn new() -> (st: TableState)
        ensures
            st.all@.len() == 0,
            st.tracks@.len() == 0,
            st.sort_key@ == "title"@,
            st.asc,
            st.filter@.len() == 0,
            string_views(st.visible@) == default_columns(),
            st.scope is Library,
            !st.built,
            st.selected@.len() == 0,
            st.anchor == 0,
            !st.album_game_prefers_game,
            st.star_mode == 0,
            st.stamp == 0,
    {
        let mut visible: Vec<String> = Vec::new();
        visible.push(owned("playing"));
        visible.push(owned("n"));
        visible.push(owned("title"));
        visible.push(owned("artist"));
        visible.push(owned("game"));
        visible.push(owned("console"));
        visible.push(owned("stars"));
        visible.push(owned("duration"));
        assert(string_views(visible@) =~= default_columns());
        TableState {
            all: Vec::new(),
            tracks: Vec::new(),
            sort_key: owned("title"),
            asc: true,
            filter: String::new(),
            visible,
            scope: Scope::Library,
            built: false,
            selected: Vec::new(),
            anchor: 0,
            album_game_prefers_game: false,
            star_mode: 0,
            stamp: 0,
        }
    }
}

impl Default for TableState {
    fn default() -> (st: TableState)
        ensures
            st.all@.len() == 0,
            st.tracks@.len() == 0,
            st.sort_key@ == "title"@,
            st.asc,
            st.filter@.len() == 0,
            string_views(st.visible@) == default_columns(),
            st.scope is Library,
            !st.built,
            st.selected@.len() == 0,
            st.anchor == 0,
            !st.album_game_prefers_game,
            st.star_mode == 0,
            st.stamp == 0,
    {
        TableState::new()
    }
}

/// One row as the table paints it.
pub struct TableRow {
    pub cells: Vec<String>,
    pub path: String,
    pub selected: bool,
    pub queue_pos: String,
    pub tip: String,
}

/// The non-empty parts, joined by `sep`.
pub open spec fn join_nonempty(parts: Seq<Seq<char>>, sep: Seq<char>) -> Seq<char>
    decreases parts.len(),
{
    if parts.len() == 0 {
        Seq::empty()
    } else {
        let prev = join_nonempty(parts.drop_last(), sep);
        let last = parts.last();
        if last.len() == 0 {
            prev
        } else if prev.len() == 0 {
            last
        } else {
            prev + sep + last
        }
    }
}

/// A row's tooltip: the title (or the path), then what is known of artist,
/// game and album, then the path, one per line.
pub open spec fn tip_text(t: Track) -> Seq<char> {
    let title = if t.title@.len() == 0 { t.path@ } else { t.title@ };
    let mid = join_nonempty(seq![t.artist@, t.game@, t.album@], " · "@);
    if mid.len() == 0 {
        title + "\n"@ + t.path@
    } else {
        title + "\n"@ + mid + "\n"@ + t.path@
    }
}

fn tip_for(t: &Track) -> (s: String)
    ensures
        s@ == tip_text(*t),
{
    let ghost parts = seq![t.artist@, t.game@, t.album@];
    let mut mid: Vec<char> = Vec::new();
    let a = text_chars(&t.artist);
    if a.len() > 0 {
        extend_chars(&mut mid, a.as_slice());
    }
    assert(mid@ == join_nonempty(parts.take(1), " · "@)) by {
        assert(parts.take(1).drop_last() =~= Seq::<Seq<char>>::empty());
        assert(parts.take(1).last() == t.artist@);
        assert(join_nonempty(parts.take(1).drop_last(), " · "@) == Seq::<char>::empty());
    }
    let g = text_chars(&t.game);
    if g.len() > 0 {
        if mid.len() > 0 {
            extend_str(&mut mid, " · ");
        }
        extend_chars(&mut mid, g.as_slice());
    }
    assert(mid@ == join_nonempty(parts.take(2), " · "@)) by {
        assert(parts.take(2).drop_last() =~= parts.take(1));
        assert(parts.take(2).last() == t.game@);
    }
    let b = text_chars(&t.album);
    if b.len() > 0 {
        if mid.len() > 0 {
            extend_str(&mut mid, " · ");
        }
        extend_chars(&mut mid, b.as_slice());
    }
    assert(mid@ == join_nonempty(parts, " · "@)) by {
        assert(parts.take(3).drop_last() =~= parts.take(2));
        assert(parts.take(3) =~= parts);
        assert(parts.last() == t.album@);
    }
    let mut out: Vec<char> = if t.title.as_str().is_empty() {
        text_chars(&t.path)
    } else {
        text_chars(&t.title)
    };
    extend_str(&mut out, "\n");
    if mid.len() > 0 {
        extend_chars(&mut out, mid.as_slice());
        extend_str(&mut out, "\n");
    }
    let p = text_chars(&t.path);
    extend_chars(&mut out, p.as_slice());
    string_of(out.as_slice())
}

/// The columns the visible keys name.
pub open spec fn columns_spec(visible: Seq<String>) -> Seq<Column> {
    visible.map_values(|k: String| column_spec(k@))
}

/// A row is what the table paints for `t`.
pub open spec fn row_is(r: TableRow, t: Track, cols: Seq<Column>, prefers_game: bool, star_mode: i32, words: CellWords) -> bool {
    &&& r.cells@.len() == cols.len()
    &&& forall|j: int| 0 <= j < cols.len() ==> (#[trigger] r.cells@[j])@ == cell_text(t, cols[j], prefers_game, star_mode, words)
    &&& r.path@ == t.path@
    &&& !r.selected
    &&& r.queue_pos@.len() == 0
    &&& r.tip@ == tip_text(t)
}

fn row_for(t: &Track, cols: &Vec<Column>, prefers_game: bool, star_mode: i32, words: &CellWords) -> (r: TableRow)
    ensures
        row_is(r, *t, cols@, prefers_game, star_mode, *words),
{
    let mut cells: Vec<String> = Vec::new();
    let mut j: usize = 0;
    while j < cols.len()
        invariant
            j <= cols.len(),
            cells@.len() == j,
            forall|i: int| 0 <= i < j ==> (#[trigger] cells@[i])@ == cell_text(*t, cols@[i], prefers_game, star_mode, *words),
        decreases cols.len() - j,
    {
        let c = cell_chars(t, cols[j], prefers_game, star_mode, words);
        cells.push(string_of(c.as_slice()));
        j += 1;
    }
    let path = owned(t.path.as_str());
    TableRow { cells, path, selected: false, queue_pos: String::new(), tip: tip_for(t) }
}

fn reversed(s: &Vec<usize>) -> (r: Vec<usize>)
    ensures
        r@ == s@.reverse(),
{
    let mut r: Vec<usize> = Vec::new();
    let mut i: usize = s.len();
    while i > 0
        invariant
            i <= s.len(),
            r@.len() == s.len() - i,
            forall|k: int| 0 <= k < r@.len() ==> r@[k] == s@[s.len() - 1 - k],
        decreases i,
    {
        i -= 1;
        r.push(s[i]);
    }
    assert(r@ =~= s@.reverse());
    r
}

fn scope_order_kept(scope: &Scope, sort_key: &String) -> (r: bool)
    ensures
        r == keeps_scope_order(*scope, sort_key@),
{
    let listed = match scope {
        Scope::Playlist { .. } => true,
        Scope::Queue { .. } => true,
        _ => false,
    };
    if !listed {
        return false;
    }
    let k = text_chars(sort_key);
    is_key(k.as_slice(), "__scope__")
}

/// Apply the scope, the filter and the sort, and paint the rows.
///
/// `needle` is the search text as the library folds it; `game_members` is
/// what the shared game grouping says belongs to the scope's game, as
/// positions in `all` (only read for a game scope).
pub fn rebuild_table(st: &mut TableState, needle: &str, game_members: &Vec<usize>, words: &CellWords) -> (rows: Vec<TableRow>)
    ensures
        final(st).all == old(st).all,
        final(st).sort_key == old(st).sort_key,
        final(st).asc == old(st).asc,
        final(st).filter == old(st).filter,
        final(st).visible == old(st).visible,
        final(st).scope == old(st).scope,
        final(st).built == old(st).built,
        final(st).anchor == old(st).anchor,
        final(st).album_game_prefers_game == old(st).album_game_prefers_game,
        final(st).star_mode == old(st).star_mode,
        final(st).selected@.len() == 0,
        final(st).stamp == (if old(st).stamp == u64::MAX { 0 } else { (old(st).stamp + 1) as u64 }),
        table_order(
            old(st).all@,
            old(st).scope,
            game_members@,
            needle@,
            old(st).sort_key@,
            old(st).asc,
            old(st).album_game_prefers_game,
            final(st).tracks@,
        ),
        positions_valid(final(st).tracks@, old(st).all@.len() as int),
        rows@.len() == final(st).tracks@.len(),
        forall|k: int| 0 <= k < rows@.len() ==> row_is(
            #[trigger] rows@[k],
            old(st).all@[final(st).tracks@[k] as int],
            columns_spec(old(st).visible@),
            old(st).album_game_prefers_game,
            old(st).star_mode,
            *words,
        ),
{
    st.selected = Vec::new();
    let base = match &st.scope {
        Scope::Queue { paths } => resolve_exec(&st.all, paths, false),
        Scope::Playlist { ids, .. } => resolve_exec(&st.all, ids, true),
        Scope::Game(_) => in_range_exec(game_members, st.all.len()),
        _ => kept_positions_exec(&st.all, &st.scope),
    };
    proof {
        lemma_base_valid(st.all@, st.scope, game_members@);
    }
    let needle_c = chars_of(needle);
    let shown = needle_filter_exec(&st.all, &base, needle_c.as_slice());
    proof {
        lemma_needle_filter_valid(st.all@, base@, needle_c@);
    }
    let keep = scope_order_kept(&st.scope, &st.sort_key);
    let ghost mut wp: Seq<usize> = Seq::empty();
    let order = if keep {
        shown
    } else {
        let c = column_of(st.sort_key.as_str());
        let ghost kspec = keys_of(st.all@, shown@, c, st.album_game_prefers_game);
        let mut keys: Vec<Vec<KeyPart>> = Vec::new();
        let mut k: usize = 0;
        while k < shown.len()
            invariant
                k <= shown.len(),
                positions_valid(shown@, st.all@.len() as int),
                kspec == keys_of(st.all@, shown@, c, st.album_game_prefers_game),
                keys@.len() == k,
                forall|i: int| 0 <= i < k ==> key_view(#[trigger] keys@[i]) == kspec[i],
            decreases shown.len() - k,
        {
            keys.push(key_for(&st.all[shown[k]], c, st.album_game_prefers_game));
            k += 1;
        }
        assert(keys_view(keys@) =~= kspec);
        let perm = stable_sort(&keys);
        let mut sorted: Vec<usize> = Vec::new();
        let mut i: usize = 0;
        while i < perm.len()
            invariant
                i <= perm.len(),
                stable_order(kspec, perm@),
                kspec.len() == shown@.len(),
                positions_valid(shown@, st.all@.len() as int),
                sorted@ == perm@.take(i as int).map_values(|p: usize| shown@[p as int]),
            decreases perm.len() - i,
        {
            assert(perm@[i as int] < kspec.len());
            sorted.push(shown[perm[i]]);
            assert(perm@.take(i + 1).map_values(|p: usize| shown@[p as int])
                =~= perm@.take(i as int).map_values(|p: usize| shown@[p as int]).push(shown@[perm@[i as int] as int]));
            i += 1;
        }
        assert(perm@.take(perm.len() as int) == perm@);
        proof {
            wp = perm@;
            assert forall|q: int| 0 <= q < sorted@.len() implies (#[trigger] sorted@[q] as int) < st.all@.len() by {
                assert(perm@[q] < kspec.len());
            }
        }
        if st.asc {
            sorted
        } else {
            let r = reversed(&sorted);
            proof {
                assert forall|q: int| 0 <= q < r@.len() implies (#[trigger] r@[q] as int) < st.all@.len() by {
                    assert(r@[q] == sorted@[sorted@.len() - 1 - q]);
                }
            }
            r
        }
    };
    proof {
        if !keep {
            assert(stable_order(keys_of(st.all@, shown@, column_spec(st.sort_key@), st.album_game_prefers_game), wp)
                && order@ == arranged(shown@, wp, st.asc));
        }
    }
    let mut cols: Vec<Column> = Vec::new();
    let mut j: usize = 0;
    while j < st.visible.len()
        invariant
            j <= st.visible.len(),
            cols@ == columns_spec(st.visible@).take(j as int),
        decreases st.visible.len() - j,
    {
        cols.push(column_of(st.visible[j].as_str()));
        assert(columns_spec(st.visible@).take(j + 1) =~= columns_spec(st.visible@).take(j as int).push(column_spec(st.visible@[j as int]@)));
        j += 1;
    }
    assert(columns_spec(st.visible@).take(st.visible.len() as int) =~= columns_spec(st.visible@));
    let mut rows: Vec<TableRow> = Vec::new();
    let mut k: usize = 0;
    while k < order.len()
        invariant
            k <= order.len(),
            positions_valid(order@, st.all@.len() as int),
            cols@ == columns_spec(st.visible@),
            rows@.len() == k,
            forall|i: int| 0 <= i < k ==> row_is(#[trigger] rows@[i], st.all@[order@[i] as int], cols@,
                st.album_game_prefers_game, st.star_mode, *words),
        decreases order.len() - k,
    {
        rows.push(row_for(&st.all[order[k]], &cols, st.album_game_prefers_game, st.star_mode, words));
        k += 1;
    }
    st.tracks = order;
    st.stamp = st.stamp.wrapping_add(1);
    rows
}

/// A position survives the search exactly when the scope listed it and the
/// track there matches.
proof fn lemma_filter_contains(all: Seq<Track>, base: Seq<usize>, needle: Seq<char>, p: usize)
    ensures
        needle_filter(all, base, needle).contains(p) <==> (base.contains(p) && needle_keeps(all[p as int], needle)),
    decreases base.len(),
{
    if base.len() > 0 {
        let prev = base.drop_last();
        lemma_filter_contains(all, prev, needle, p);
        let f = needle_filter(all, base, needle);
        let fp = needle_filter(all, prev, needle);
        assert(base == prev.push(base.last()));
        if base.contains(p) && !prev.contains(p) {
            assert(base.last() == p) by {
                let w = choose|w: int| 0 <= w < base.len() && base[w] == p;
                if w < base.len() - 1 {
                    assert(prev[w] == p);
                }
            }
        }
        if prev.contains(p) {
            let w = choose|w: int| 0 <= w < prev.len() && prev[w] == p;
            assert(base[w] == p);
        }
        if needle_keeps(all[base.last() as int], needle) {
            assert(f == fp.push(base.last()));
            if fp.contains(p) {
                let w = choose|w: int| 0 <= w < fp.len() && fp[w] == p;
                assert(f[w] == p);
            }
            if f.contains(p) && p != base.last() {
                let w = choose|w: int| 0 <= w < f.len() && f[w] == p;
                assert(w < fp.len());
                assert(fp[w] == p);
            }
            if p == base.last() {
                assert(f[f.len() - 1] == p);
            }
        }
    } else {
        assert(!needle_filter(all, base, needle).contains(p));
    }
}

/// The search box keeps exactly the tracks whose folded title, folded
/// artist or folded game contains the folded needle (all of them for an
/// empty needle): of the positions the scope lists, the table (in whatever
/// order the sort puts it) holds a position exactly when its track matches
/// in one of those three fields. (`order` is a list the machine holds, so
/// its length fits in `usize`.)
pub proof fn search_keeps_exactly_the_matches(
    all: Seq<Track>,
    scope: Scope,
    game_members: Seq<usize>,
    needle: Seq<char>,
    sort_key: Seq<char>,
    asc: bool,
    prefers_game: bool,
    order: Seq<usize>,
    p: usize,
)
    requires
        table_order(all, scope, game_members, needle, sort_key, asc, prefers_game, order),
        base_positions(all, scope, game_members).contains(p),
        order.len() <= usize::MAX,
    ensures
        order.contains(p) <==> (needle.len() == 0 || has_sub(all[p as int].keys.title_folded@, needle)
            || has_sub(all[p as int].keys.artist_folded@, needle) || has_sub(all[p as int].keys.game_folded@, needle)),
{
    let base = base_positions(all, scope, game_members);
    let shown = needle_filter(all, base, needle);
    lemma_filter_contains(all, base, needle, p);
    if !keeps_scope_order(scope, sort_key) {
        let keys = keys_of(all, shown, column_spec(sort_key), prefers_game);
        let perm = choose|perm: Seq<usize>| stable_order(keys, perm) && order == arranged(shown, perm, asc);
        let sorted = perm.map_values(|q: usize| shown[q as int]);
        assert(sorted.len() == shown.len());
        assert(order.len() == sorted.len());
        if shown.contains(p) {
            let j = choose|j: int| 0 <= j < shown.len() && shown[j] == p;
            assert(has_pos(perm, j));
            assert(perm.contains(j as usize));
            let k = choose|k: int| 0 <= k < perm.len() && perm[k] == j as usize;
            assert(sorted[k] == shown[perm[k] as int]);
            assert(perm[k] as int == j);
            assert(sorted[k] == p);
            if asc {
                assert(order[k] == p);
            } else {
                assert(order[sorted.len() - 1 - k] == p);
            }
        }
        if order.contains(p) {
            let k = choose|k: int| 0 <= k < order.len() && order[k] == p;
            let k2 = if asc { k } else { sorted.len() - 1 - k };
            assert(sorted[k2] == p);
            assert(perm[k2] < shown.len());
            assert(shown[perm[k2] as int] == p);
        }
    }
}

} // verus!
