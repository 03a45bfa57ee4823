use vstd::prelude::*;
use vstd::string::StrSliceExecFns;
use vstd::string::StringExecFns;
use crate::song::{Song, SongView, parse_song_record, song_line_ok, song_record};
use crate::text::{
    chars_of, decimal_text, is_digit, lemma_decimal_text_parses,
    lemma_decimal_text_reads_back, lemma_split_first_field, lemma_split_single,
    join_fields, lemma_trim_first_char, lemma_trim_keeps, lemma_visible_ascii_not_white_space, lemma_trimmed_ends, no_separator, push_decimal,
    separator_at, separator_text, split_fields, trim, trim_range, trim_start,
};

verus! {

/// A named list of songs.
pub struct Playlist {
    pub name: String,
    pub songs: Vec<Song>,
}

/// The content of a [`Playlist`].
pub struct PlaylistView {
    pub name: Seq<char>,
    pub songs: Seq<SongView>,
}

/// The contents of the songs `v`, in order.
pub open spec fn song_views(v: Seq<Song>) -> Seq<SongView> {
    v.map_values(|s: Song| s@)
}

/// The contents of the playlists `v`, in order.
pub open spec fn playlist_views(v: Seq<Playlist>) -> Seq<PlaylistView> {
    v.map_values(|p: Playlist| p@)
}

/// The texts of the lines `v`, in order.
pub open spec fn line_views(v: Seq<String>) -> Seq<Seq<char>> {
    v.map_values(|l: String| l@)
}

impl View for Playlist {
    type V = PlaylistView;

    open spec fn view(&self) -> PlaylistView {
        PlaylistView { name: self.name@, songs: song_views(self.songs@) }
    }
}

impl Playlist {
    /// A playlist with an empty name and no song.
    pub fn new() -> (p: Self)
        ensures
            p@ == (PlaylistView { name: Seq::empty(), songs: Seq::empty() }),
    {
        let p = Playlist { name: String::new(), songs: Vec::new() };
        assert(p@.songs =~= Seq::<SongView>::empty());
        p
    }

    /// Adds `song` at the end of the playlist.
    pub fn add_song(&mut self, song: Song)
        ensures
            final(self)@ == (PlaylistView {
                name: old(self)@.name,
                songs: old(self)@.songs.push(song@),
            }),
    {
        let ghost s = song@;
        self.songs.push(song);
        assert(self@.songs =~= old(self)@.songs.push(s));
    }
}

// ---------------------------------------------------------------------------
// Reading playlists
// ---------------------------------------------------------------------------

/// Where reading the lines of a playlist file stands: the playlists read
/// to the end, and the one being read, if any.
pub struct ReadState {
    pub done: Seq<PlaylistView>,
    pub current: Option<PlaylistView>,
}

/// Where reading stands before the first line.
pub open spec fn start_state() -> ReadState {
    ReadState { done: Seq::empty(), current: None }
}

/// Whether `line` starts a playlist: its first character that is not white
/// space is `{`.
pub open spec fn opens_playlist(line: Seq<char>) -> bool {
    let t = trim(line);
    t.len() > 0 && t[0] == '{'
}

/// Whether `line` ends a playlist: its first character that is not white
/// space is `}`.
pub open spec fn closes_playlist(line: Seq<char>) -> bool {
    let t = trim(line);
    t.len() > 0 && t[0] == '}'
}

/// `s` without the `{` characters at its start.
pub open spec fn without_open_braces(s: Seq<char>) -> Seq<char>
    decreases s.len(),
{
    if s.len() > 0 && s[0] == '{' {
        without_open_braces(s.drop_first())
    } else {
        s
    }
}

/// The name of the playlist that a line `{name` starts: what follows the
/// braces, without white space at either end.
pub open spec fn playlist_name_in(line: Seq<char>) -> Seq<char> {
    trim(without_open_braces(trim(line)))
}

/// All the playlists read so far, the one being read included.
pub open spec fn finished(st: ReadState) -> Seq<PlaylistView> {
    match st.current {
        Some(p) => st.done.push(p),
        None => st.done,
    }
}

/// Where reading stands after one more line: a line that starts a playlist
/// ends the one being read and starts a new one, empty; a line that ends
/// a playlist ends the one being read; any other line is a song of the
/// playlist being read, and is passed over outside any playlist.
pub open spec fn read_step(st: ReadState, line: Seq<char>) -> ReadState {
    if opens_playlist(line) {
        ReadState {
            done: finished(st),
            current: Some(PlaylistView { name: playlist_name_in(line), songs: Seq::empty() }),
        }
    } else if closes_playlist(line) {
        ReadState { done: finished(st), current: None }
    } else {
        match st.current {
            Some(p) => ReadState {
                done: st.done,
                current: Some(PlaylistView { name: p.name, songs: p.songs.push(song_record(line)) }),
            },
            None => st,
        }
    }
}

/// Where reading stands after the lines `lines`, from `st`.
pub open spec fn read_from(st: ReadState, lines: Seq<Seq<char>>) -> ReadState
    decreases lines.len(),
{
    if lines.len() == 0 {
        st
    } else {
        read_step(read_from(st, lines.drop_last()), lines.last())
    }
}

/// Whether `line` can be read where reading stands at `st`: a song line
/// of a playlist must have a year that can be read.
pub open spec fn line_readable(st: ReadState, line: Seq<char>) -> bool {
    opens_playlist(line) || closes_playlist(line) || st.current is None || song_line_ok(line)
}

/// Whether each of the lines `lines` can be read, from `st`.
pub open spec fn readable_from(st: ReadState, lines: Seq<Seq<char>>) -> bool {
    forall|k: int|
        0 <= k < lines.len() ==> line_readable(read_from(st, lines.take(k)), #[trigger] lines[k])
}

/// The playlists that a playlist file whose lines are `lines` holds.
pub open spec fn playlists_in(lines: Seq<Seq<char>>) -> Seq<PlaylistView> {
    finished(read_from(start_state(), lines))
}

/// The content of the playlist being read, if any.
pub open spec fn current_view(c: Option<Playlist>) -> Option<PlaylistView> {
    match c {
        Some(p) => Some(p@),
        None => None,
    }
}

/// What a line of a playlist file is.
enum LineKind {
    /// It starts a playlist.
    Opens,
    /// It ends a playlist.
    Closes,
    /// It is a song line (or is passed over, outside any playlist).
    Other,
}

/// What `line` is, as a line of a playlist file.
fn classify_line(line: &str) -> (k: LineKind)
    ensures
        k is Opens <==> opens_playlist(line@),
        k is Closes <==> closes_playlist(line@),
{
    let v = chars_of(line);
    let (lo, hi) = trim_range(&v, 0, v.len());
    assert(v@.subrange(0, v@.len() as int) =~= v@);
    if lo < hi && v[lo] == '{' {
        LineKind::Opens
    } else if lo < hi && v[lo] == '}' {
        LineKind::Closes
    } else {
        LineKind::Other
    }
}

/// The name of the playlist that `line` starts.
fn playlist_name(line: &str) -> (name: String)
    ensures
        name@ == playlist_name_in(line@),
{
    let v = chars_of(line);
    let (lo, hi) = trim_range(&v, 0, v.len());
    assert(v@.subrange(0, v@.len() as int) =~= v@);
    let mut j = lo;
    while j < hi && v[j] == '{'
        invariant
            lo <= j <= hi <= v.len(),
            without_open_braces(v@.subrange(lo as int, hi as int)) == without_open_braces(
                v@.subrange(j as int, hi as int),
            ),
        decreases hi - j,
    {
        assert(v@.subrange(j as int, hi as int).drop_first() =~= v@.subrange(
            j as int + 1,
            hi as int,
        ));
        j = j + 1;
    }
    let (a, b) = trim_range(&v, j, hi);
    String::from_str(line.substring_char(a, b))
}

/// Where reading stands after one line more of `lines`.
proof fn lemma_read_one_more(lines: Seq<Seq<char>>, i: int)
    requires
        0 <= i < lines.len(),
    ensures
        read_from(start_state(), lines.take(i + 1)) == read_step(
            read_from(start_state(), lines.take(i)),
            lines[i],
        ),
{
    assert(lines.take(i + 1).drop_last() =~= lines.take(i));
    assert(lines.take(i + 1).last() == lines[i]);
}

/// The playlists that a playlist file whose lines are `lines` holds, in
/// the order in which they start (see [`playlists_in`]).
pub fn read_playlists(lines: &Vec<String>) -> (ps: Vec<Playlist>)
    requires
        readable_from(start_state(), line_views(lines@)),
    ensures
        playlist_views(ps@) == playlists_in(line_views(lines@)),
{
    let ghost lv = line_views(lines@);
    let mut done: Vec<Playlist> = Vec::new();
    let mut current: Option<Playlist> = None;
    assert(lv.take(0) =~= Seq::<Seq<char>>::empty());
    assert(playlist_views(done@) =~= Seq::<PlaylistView>::empty());
    for i in 0..lines.len()
        invariant
            lv == line_views(lines@),
            readable_from(start_state(), lv),
            (ReadState { done: playlist_views(done@), current: current_view(current) })
                == read_from(start_state(), lv.take(i as int)),
    {
        let ghost before = read_from(start_state(), lv.take(i as int));
        proof {
            lemma_read_one_more(lv, i as int);
            assert(line_readable(before, lv[i as int]));
        }
        let line = lines[i].as_str();
        assert(line@ == lv[i as int]);
        let kind = classify_line(line);
        if let LineKind::Opens = kind {
            let name = playlist_name(line);
            if let Some(p) = current.take() {
                done.push(p);
                assert(playlist_views(done@) =~= finished(before));
            } else {
                assert(playlist_views(done@) =~= finished(before));
            }
            let p = Playlist { name, songs: Vec::new() };
            assert(p@.songs =~= Seq::<SongView>::empty());
            current = Some(p);
        } else if let LineKind::Closes = kind {
            if let Some(p) = current.take() {
                done.push(p);
                assert(playlist_views(done@) =~= finished(before));
            } else {
                assert(playlist_views(done@) =~= finished(before));
            }
        } else {
            if let Some(mut p) = current.take() {
                let s = parse_song_record(line);
                p.add_song(s);
                current = Some(p);
            }
        }
    }
    assert(lv.take(lines.len() as int) =~= lv);
    if let Some(p) = current.take() {
        done.push(p);
    }
    assert(playlist_views(done@) =~= playlists_in(lv));
    done
}

/// Whether each line of `lines` can be read as a line of a playlist file
/// (see [`readable_from`]).
pub fn playlist_lines_are_readable(lines: &Vec<String>) -> (b: bool)
    ensures
        b == readable_from(start_state(), line_views(lines@)),
{
    let ghost lv = line_views(lines@);
    let mut open = false;
    assert(lv.take(0) =~= Seq::<Seq<char>>::empty());
    for i in 0..lines.len()
        invariant
            lv == line_views(lines@),
            open == read_from(start_state(), lv.take(i as int)).current is Some,
            forall|k: int|
                0 <= k < i ==> line_readable(read_from(start_state(), lv.take(k)), #[trigger] lv[k]),
    {
        proof {
            lemma_read_one_more(lv, i as int);
        }
        let line = lines[i].as_str();
        assert(line@ == lv[i as int]);
        let kind = classify_line(line);
        if let LineKind::Opens = kind {
            open = true;
        } else if let LineKind::Closes = kind {
            open = false;
        } else if open {
            if !crate::song::song_line_is_valid(line) {
                return false;
            }
        }
    }
    true
}

// ---------------------------------------------------------------------------
// Writing a playlist
// ---------------------------------------------------------------------------

/// The line that stands for song `s` in a playlist file:
/// `name; author; genre; year; language; url`.
pub open spec fn song_line(s: SongView) -> Seq<char> {
    s.name + separator_text() + s.author + separator_text() + s.genre + separator_text() + decimal_text(
        s.year as nat,
    ) + separator_text() + s.language + separator_text() + s.url
}

/// The lines that stand for a playlist named `name` with the songs
/// `songs`: `{name`, one line per song, then `}`.
pub open spec fn playlist_lines(name: Seq<char>, songs: Seq<SongView>) -> Seq<Seq<char>> {
    seq![seq!['{'] + name] + songs.map_values(|s: SongView| song_line(s)) + seq![seq!['}']]
}

/// The text of the lines `lines`, each one ended by a line feed.
pub open spec fn lines_text(lines: Seq<Seq<char>>) -> Seq<char>
    decreases lines.len(),
{
    if lines.len() == 0 {
        Seq::empty()
    } else {
        lines_text(lines.drop_last()) + lines.last() + seq!['\n']
    }
}

fn append_song_line(out: &mut String, s: &Song)
    ensures
        final(out)@ == old(out)@ + song_line(s@) + seq!['\n'],
{
    proof {
        reveal_strlit("; ");
        reveal_strlit("\n");
    }
    out.append(s.name.as_str());
    out.append("; ");
    out.append(s.author.as_str());
    out.append("; ");
    out.append(s.genre.as_str());
    out.append("; ");
    push_decimal(out, s.year);
    out.append("; ");
    out.append(s.language.as_str());
    out.append("; ");
    out.append(s.url.as_str());
    out.append("\n");
    assert("; "@ =~= separator_text());
    assert("\n"@ =~= seq!['\n']);
    assert(out@ =~= old(out)@ + song_line(s@) + seq!['\n']);
}

/// The text that saves a playlist named `name` with the songs `songs` in a
/// playlist file: its lines (see [`playlist_lines`]), each ended by a line
/// feed.
pub fn playlist_text(name: &str, songs: &Vec<Song>) -> (t: String)
    ensures
        t@ == lines_text(playlist_lines(name@, song_views(songs@))),
{
    let ghost lines = playlist_lines(name@, song_views(songs@));
    let ghost first = seq!['{'] + name@;
    let ghost mids = song_views(songs@).map_values(|s: SongView| song_line(s));
    proof {
        reveal_strlit("{");
        reveal_strlit("}");
        reveal_strlit("\n");
    }
    let mut out = String::new();
    out.append("{");
    out.append(name);
    out.append("\n");
    assert(seq![first].drop_last() =~= Seq::<Seq<char>>::empty());
    assert("{"@ =~= seq!['{']);
    assert("\n"@ =~= seq!['\n']);
    assert(lines_text(seq![first]) == lines_text(Seq::<Seq<char>>::empty()) + first + seq!['\n']);
    assert(out@ =~= lines_text(seq![first]));
    for i in 0..songs.len()
        invariant
            mids == song_views(songs@).map_values(|s: SongView| song_line(s)),
            out@ == lines_text(seq![first] + mids.take(i as int)),
    {
        append_song_line(&mut out, &songs[i]);
        let ghost next = seq![first] + mids.take(i as int + 1);
        assert(next.drop_last() =~= seq![first] + mids.take(i as int));
        assert(next.last() == song_line(songs@[i as int]@));
    }
    out.append("}");
    out.append("\n");
    assert(mids.take(songs.len() as int) =~= mids);
    assert(lines.drop_last() =~= seq![first] + mids);
    assert(out@ =~= lines_text(lines));
    out
}

/// Whether `name` can name a saved playlist: it holds neither `{` nor `}`.
pub fn playlist_name_is_allowed(name: &str) -> (b: bool)
    ensures
        b == !(name@.contains('{') || name@.contains('}')),
{
    let v = chars_of(name);
    for i in 0..v.len()
        invariant
            v@ == name@,
            forall|j: int| 0 <= j < i ==> v@[j] != '{' && v@[j] != '}',
    {
        if v[i] == '{' || v[i] == '}' {
            return false;
        }
    }
    true
}

/// The position of the first playlist of `playlists` named `name`, if any.
pub fn find_playlist(playlists: &Vec<Playlist>, name: &str) -> (r: Option<usize>)
    ensures
        match r {
            Some(i) => i < playlists.len() && playlists@[i as int].name@ == name@ && forall|j: int|
                0 <= j < i ==> playlists@[j].name@ != name@,
            None => forall|j: int| 0 <= j < playlists.len() ==> playlists@[j].name@ != name@,
        },
{
    let wanted = String::from_str(name);
    for i in 0..playlists.len()
        invariant
            wanted@ == name@,
            forall|j: int| 0 <= j < i ==> playlists@[j].name@ != name@,
    {
        if playlists[i].name == wanted {
            return Some(i);
        }
    }
    None
}

// ---------------------------------------------------------------------------
// What a saved playlist reads back as
// ---------------------------------------------------------------------------

/// Whether `name`, saved as the name of a playlist, reads back as itself:
/// it has no white space at either end and does not start with `{`.
pub open spec fn name_fits_file(name: Seq<char>) -> bool {
    &&& name == trim(name)
    &&& !(name.len() > 0 && name[0] == '{')
}

/// Whether song `s`, saved in a playlist, reads back as itself (but for
/// its indexes): none of its texts holds the separator `"; "`, and its name
/// does not start, after white space, with `{` or `}`.
pub open spec fn song_fits_file(s: SongView) -> bool {
    &&& no_separator(s.name)
    &&& no_separator(s.author)
    &&& no_separator(s.genre)
    &&& no_separator(s.language)
    &&& no_separator(s.url)
    &&& (trim_start(s.name).len() == 0 || (trim_start(s.name)[0] != '{' && trim_start(s.name)[0]
        != '}'))
}

/// Song `s` with both indexes zero, as a song of a playlist file reads.
pub open spec fn unindexed(s: SongView) -> SongView {
    SongView { genre_index: 0, language_index: 0, ..s }
}

/// Reading `a` then `b` from `st` is reading `a + b` from `st`.
pub proof fn lemma_read_from_concat(st: ReadState, a: Seq<Seq<char>>, b: Seq<Seq<char>>)
    ensures
        read_from(st, a + b) == read_from(read_from(st, a), b),
    decreases b.len(),
{
    if b.len() == 0 {
        assert(a + b =~= a);
    } else {
        assert((a + b).drop_last() =~= a + b.drop_last());
        assert((a + b).last() == b.last());
        lemma_read_from_concat(st, a, b.drop_last());
    }
}

proof fn lemma_no_separator_in_digits(d: Seq<char>)
    requires
        forall|i: int| 0 <= i < d.len() ==> is_digit(#[trigger] d[i]),
    ensures
        no_separator(d),
{
    assert forall|i: int| !separator_at(d, i) by {
        if 0 <= i < d.len() {
            assert(is_digit(d[i]));
        }
    }
}

/// The line of a song that fits a playlist file is a song line, neither
/// the start nor the end of a playlist, and reads back as that song.
pub proof fn lemma_song_line_reads_back(s: SongView)
    requires
        song_fits_file(s),
    ensures
        !opens_playlist(song_line(s)),
        !closes_playlist(song_line(s)),
        song_line_ok(song_line(s)),
        song_record(song_line(s)) == unindexed(s),
{
    let sep = separator_text();
    let d = decimal_text(s.year as nat);
    lemma_decimal_text_reads_back(s.year as nat);
    lemma_decimal_text_parses(s.year);
    lemma_no_separator_in_digits(d);
    let r4 = s.language + sep + s.url;
    let r3 = d + sep + r4;
    let r2 = s.genre + sep + r3;
    let r1 = s.author + sep + r2;
    let line = s.name + sep + r1;
    assert(song_line(s) =~= line);
    lemma_split_single(s.url);
    lemma_split_first_field(s.language, s.url);
    lemma_split_first_field(d, r4);
    lemma_split_first_field(s.genre, r3);
    lemma_split_first_field(s.author, r2);
    lemma_split_first_field(s.name, r1);
    let fs = split_fields(line);
    assert(fs =~= seq![s.name, s.author, s.genre, d, s.language, s.url]);
    assert(song_record(line) =~= unindexed(s));
    lemma_trim_first_char(s.name, sep + r1);
    assert(s.name + (sep + r1) =~= line);
}

/// The line that starts a saved playlist whose name fits the file starts a
/// playlist of that name.
pub proof fn lemma_name_line_reads_back(name: Seq<char>)
    requires
        name_fits_file(name),
    ensures
        opens_playlist(seq!['{'] + name),
        !closes_playlist(seq!['{'] + name),
        playlist_name_in(seq!['{'] + name) == name,
{
    let first = seq!['{'] + name;
    lemma_trimmed_ends(name);
    lemma_trim_keeps(first);
    assert(first.drop_first() =~= name);
    assert(without_open_braces(first) == without_open_braces(name));
}

/// The line `}` ends a playlist.
pub proof fn lemma_end_line()
    ensures
        closes_playlist(seq!['}']),
        !opens_playlist(seq!['}']),
{
    lemma_trim_keeps(seq!['}']);
}

proof fn lemma_read_songs(
    done: Seq<PlaylistView>,
    name: Seq<char>,
    songs: Seq<SongView>,
    k: int,
)
    requires
        0 <= k <= songs.len(),
        forall|i: int| 0 <= i < songs.len() ==> song_fits_file(#[trigger] songs[i]),
    ensures
        read_from(
            ReadState { done, current: Some(PlaylistView { name, songs: Seq::empty() }) },
            songs.map_values(|s: SongView| song_line(s)).take(k),
        ) == (ReadState {
            done,
            current: Some(
                PlaylistView { name, songs: songs.take(k).map_values(|s: SongView| unindexed(s)) },
            ),
        }),
    decreases k,
{
    let mids = songs.map_values(|s: SongView| song_line(s));
    if k == 0 {
        assert(mids.take(0) =~= Seq::<Seq<char>>::empty());
        assert(songs.take(0).map_values(|s: SongView| unindexed(s)) =~= Seq::<SongView>::empty());
    } else {
        lemma_read_songs(done, name, songs, k - 1);
        assert(mids.take(k).drop_last() =~= mids.take(k - 1));
        assert(mids.take(k).last() == song_line(songs[k - 1]));
        lemma_song_line_reads_back(songs[k - 1]);
        assert(songs.take(k).map_values(|s: SongView| unindexed(s)) =~= songs.take(k - 1).map_values(
            |s: SongView| unindexed(s),
        ).push(unindexed(songs[k - 1])));
    }
}

/// What saving a playlist in a playlist file and reading the file back
/// gives: where the name and the songs fit the file, the lines of the
/// file, followed by the lines of the saved playlist, can all be read, and
/// hold the playlists of the file, then the saved playlist, with the same
/// name and the same songs in the same order (with both indexes zero).
pub proof fn lemma_saved_playlist_reads_back(
    prev: Seq<Seq<char>>,
    name: Seq<char>,
    songs: Seq<SongView>,
)
    requires
        readable_from(start_state(), prev),
        name_fits_file(name),
        forall|i: int| 0 <= i < songs.len() ==> song_fits_file(#[trigger] songs[i]),
    ensures
        readable_from(start_state(), prev + playlist_lines(name, songs)),
        playlists_in(prev + playlist_lines(name, songs)) == playlists_in(prev).push(
            PlaylistView { name, songs: songs.map_values(|s: SongView| unindexed(s)) },
        ),
{
    let st0 = start_state();
    let st = read_from(st0, prev);
    let first = seq!['{'] + name;
    let last = seq!['}'];
    let mids = songs.map_values(|s: SongView| song_line(s));
    let pl = playlist_lines(name, songs);
    let n = songs.len() as int;
    let st1 = ReadState {
        done: finished(st),
        current: Some(PlaylistView { name, songs: Seq::empty() }),
    };
    lemma_name_line_reads_back(name);
    lemma_end_line();
    // Reading the lines of the saved playlist, one prefix after the other.
    assert forall|j: int| 0 <= j <= n implies #[trigger] read_from(st, pl.take(j + 1)) == read_from(
        st1,
        mids.take(j),
    ) by {
        assert(pl.take(1) =~= seq![first]);
        assert(seq![first].drop_last() =~= Seq::<Seq<char>>::empty());
        assert(read_from(st, seq![first]) == read_step(
            read_from(st, seq![first].drop_last()),
            seq![first].last(),
        ));
        assert(read_from(st, Seq::<Seq<char>>::empty()) == st);
        assert(read_step(st, first) == st1);
        assert(read_from(st, pl.take(1)) == st1);
        assert(pl.take(j + 1) =~= pl.take(1) + mids.take(j));
        lemma_read_from_concat(st, pl.take(1), mids.take(j));
    }
    assert(pl =~= pl.take(n + 1).push(last));
    assert(pl.take(n + 1) == pl.drop_last());
    assert(read_from(st, pl.take(n + 1)) == read_from(st1, mids.take(n)));
    lemma_read_songs(finished(st), name, songs, n);
    assert(songs.take(n) =~= songs);
    assert(read_from(st, pl) == read_step(read_from(st, pl.drop_last()), pl.last()));
    lemma_read_from_concat(st0, prev, pl);
    // Each line can be read.
    let all = prev + pl;
    assert forall|k: int| 0 <= k < all.len() implies line_readable(
        read_from(st0, all.take(k)),
        #[trigger] all[k],
    ) by {
        if k < prev.len() {
            assert(all.take(k) =~= prev.take(k));
            assert(all[k] == prev[k]);
        } else {
            let j = k - prev.len();
            assert(all.take(k) =~= prev + pl.take(j));
            lemma_read_from_concat(st0, prev, pl.take(j));
            assert(all[k] == pl[j]);
            if 1 <= j <= n {
                assert(pl[j] == song_line(songs[j - 1]));
                lemma_song_line_reads_back(songs[j - 1]);
            }
        }
    }
}

/// The text of one line is that line followed by a line feed.
pub proof fn lemma_lines_text_one(line: Seq<char>)
    ensures
        lines_text(seq![line]) == line + seq!['\n'],
{
    assert(seq![line].drop_last() =~= Seq::<Seq<char>>::empty());
    assert(lines_text(seq![line]) == lines_text(Seq::<Seq<char>>::empty()) + line + seq!['\n']);
    assert(Seq::<char>::empty() + line + seq!['\n'] =~= line + seq!['\n']);
}

/// The text of the lines `a` then `b` is the text of `a` followed by the
/// text of `b`: no line is left out, added or moved.
pub proof fn lemma_lines_text_concat(a: Seq<Seq<char>>, b: Seq<Seq<char>>)
    ensures
        lines_text(a + b) == lines_text(a) + lines_text(b),
    decreases b.len(),
{
    if b.len() == 0 {
        assert(a + b =~= a);
        assert(lines_text(a) + Seq::<char>::empty() =~= lines_text(a));
    } else {
        lemma_lines_text_concat(a, b.drop_last());
        assert((a + b).drop_last() =~= a + b.drop_last());
        assert((a + b).last() == b.last());
        assert(lines_text(a + b) =~= lines_text(a) + lines_text(b));
    }
}

/// The saved text of a playlist: `{`, the name, a line feed, then each
/// song's line followed by a line feed, in order, then `}` and a line feed.
pub proof fn lemma_playlist_text_shape(name: Seq<char>, songs: Seq<SongView>)
    ensures
        lines_text(playlist_lines(name, songs)) == seq!['{'] + name + seq!['\n'] + lines_text(
            songs.map_values(|s: SongView| song_line(s)),
        ) + seq!['}', '\n'],
{
    let first = seq!['{'] + name;
    let mids = songs.map_values(|s: SongView| song_line(s));
    lemma_lines_text_concat(seq![first], mids);
    lemma_lines_text_concat(seq![first] + mids, seq![seq!['}']]);
    lemma_lines_text_one(first);
    lemma_lines_text_one(seq!['}']);
    assert(playlist_lines(name, songs) == seq![first] + mids + seq![seq!['}']]);
    assert(seq!['}'] + seq!['\n'] =~= seq!['}', '\n']);
    assert(first + seq!['\n'] =~= seq!['{'] + name + seq!['\n']);
}

/// A line `{name` where `name` starts and ends with a visible ASCII
/// character (digits and letters included) and does not start with `{`
/// starts a playlist named exactly `name`: e.g. `{Top 10` names `Top 10`.
pub proof fn lemma_playlist_named_by_line(name: Seq<char>)
    requires
        name.len() > 0,
        '!' <= name[0] <= '~',
        name[0] != '{',
        '!' <= name.last() <= '~',
    ensures
        opens_playlist(seq!['{'] + name),
        playlist_name_in(seq!['{'] + name) == name,
{
    lemma_visible_ascii_not_white_space(name[0]);
    lemma_visible_ascii_not_white_space(name.last());
    lemma_trim_keeps(name);
    lemma_name_line_reads_back(name);
}

/// A song's line holds its name, author, genre, year in decimal, language
/// and url, in that order, joined with `"; "`.
pub proof fn lemma_song_line_fields(s: SongView)
    ensures
        song_line(s) == join_fields(
            seq![s.name, s.author, s.genre, decimal_text(s.year as nat), s.language, s.url],
        ),
{
    let fs = seq![s.name, s.author, s.genre, decimal_text(s.year as nat), s.language, s.url];
    let sep = seq![';', ' '];
    assert(separator_text() == sep);
    let j5 = fs.subrange(5, 6);
    let j4 = fs.subrange(4, 6);
    let j3 = fs.subrange(3, 6);
    let j2 = fs.subrange(2, 6);
    let j1 = fs.subrange(1, 6);
    assert(j5.len() == 1 && j5[0] == s.url);
    assert(join_fields(j5) == s.url);
    assert(j4.drop_first() =~= j5);
    assert(join_fields(j4) == s.language + sep + s.url);
    assert(j3.drop_first() =~= j4);
    assert(join_fields(j3) == decimal_text(s.year as nat) + sep + join_fields(j4));
    assert(j2.drop_first() =~= j3);
    assert(join_fields(j2) == s.genre + sep + join_fields(j3));
    assert(j1.drop_first() =~= j2);
    assert(join_fields(j1) == s.author + sep + join_fields(j2));
    assert(fs.drop_first() =~= j1);
    assert(join_fields(fs) == s.name + sep + join_fields(j1));
    assert(song_line(s) =~= join_fields(fs));
}

} // verus!
