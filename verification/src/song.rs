use vstd::prelude::*;
use vstd::string::StrSliceExecFns;
use vstd::string::StringExecFns;
use crate::text::{
    join_fields, lemma_split_of_join, no_separator,
    chars_of, parse_u16_in, parses_as_u16, split_bounds, split_fields, u16_value,
};

verus! {

broadcast use vstd::string::group_string_axioms;

/// A song of the catalogue.
///
/// `genre_index` and `language_index` are the song's genre and language as
/// positions in the lists of known genres and languages (see
/// [`genre_index_of`] and [`language_index_of`]).
pub struct Song {
    pub name: String,
    pub author: String,
    pub genre: String,
    pub year: u16,
    pub language: String,
    pub url: String,
    pub genre_index: usize,
    pub language_index: usize,
}

/// The content of a [`Song`], its texts as sequences of characters.
pub struct SongView {
    pub name: Seq<char>,
    pub author: Seq<char>,
    pub genre: Seq<char>,
    pub year: u16,
    pub language: Seq<char>,
    pub url: Seq<char>,
    pub genre_index: usize,
    pub language_index: usize,
}

impl View for Song {
    type V = SongView;

    open spec fn view(&self) -> SongView {
        SongView {
            name: self.name@,
            author: self.author@,
            genre: self.genre@,
            year: self.year,
            language: self.language@,
            url: self.url@,
            genre_index: self.genre_index,
            language_index: self.language_index,
        }
    }
}

/// Field `k` of the fields `fs`, or the empty text where there are fewer
/// than `k + 1` fields.
pub open spec fn field_or_empty(fs: Seq<Seq<char>>, k: int) -> Seq<char> {
    if 0 <= k < fs.len() {
        fs[k]
    } else {
        Seq::empty()
    }
}

/// Whether a song line can be read: its fourth field, where it has one, is
/// the text of an unsigned 16-bit number (the year).
pub open spec fn song_line_ok(line: Seq<char>) -> bool {
    let fs = split_fields(line);
    fs.len() <= 3 || parses_as_u16(fs[3])
}

/// The song that a line `name; author; genre; year; language; url`
/// describes.  Missing fields leave the text empty and the year zero;
/// fields after the sixth are not read; both indexes are zero.
pub open spec fn song_record(line: Seq<char>) -> SongView {
    let fs = split_fields(line);
    SongView {
        name: field_or_empty(fs, 0),
        author: field_or_empty(fs, 1),
        genre: field_or_empty(fs, 2),
        year: if fs.len() > 3 {
            u16_value(fs[3])
        } else {
            0
        },
        language: field_or_empty(fs, 4),
        url: field_or_empty(fs, 5),
        genre_index: 0,
        language_index: 0,
    }
}

/// The position of genre `g` in the list Pop, Kpop, Jpop, Rock, Metal,
/// Reggaeton (with an accented o), Rap, Clasica (with an accented a),
/// Indie, Jazz, Electronica (with an accented o); zero for any other genre.
pub open spec fn genre_index_of(g: Seq<char>) -> usize {
    if g == "Pop"@ {
        0
    } else if g == "Kpop"@ {
        1
    } else if g == "Jpop"@ {
        2
    } else if g == "Rock"@ {
        3
    } else if g == "Metal"@ {
        4
    } else if g == "Reggaet\u{f3}n"@ {
        5
    } else if g == "Rap"@ {
        6
    } else if g == "Cl\u{e1}sica"@ {
        7
    } else if g == "Indie"@ {
        8
    } else if g == "Jazz"@ {
        9
    } else if g == "Electr\u{f3}nica"@ {
        10
    } else {
        0
    }
}

/// The position of language `l` in the list Espanol (with an n tilde),
/// Ingles, Coreano, Japones, Frances (each with an accented e), Italiano,
/// Aleman (with an accented a), Sin letra; zero for any other language.
pub open spec fn language_index_of(l: Seq<char>) -> usize {
    if l == "Espa\u{f1}ol"@ {
        0
    } else if l == "Ingl\u{e9}s"@ {
        1
    } else if l == "Coreano"@ {
        2
    } else if l == "Japon\u{e9}s"@ {
        3
    } else if l == "Franc\u{e9}s"@ {
        4
    } else if l == "Italiano"@ {
        5
    } else if l == "Alem\u{e1}n"@ {
        6
    } else if l == "Sin letra"@ {
        7
    } else {
        0
    }
}

/// The song that a line of the catalogue describes: as [`song_record`],
/// with the indexes of its genre and language.
pub open spec fn catalogue_song(line: Seq<char>) -> SongView {
    let r = song_record(line);
    SongView {
        genre_index: genre_index_of(r.genre),
        language_index: language_index_of(r.language),
        ..r
    }
}

fn text_is(s: &String, lit: &str) -> (b: bool)
    ensures
        b == (s@ == lit@),
{
    let l = String::from_str(lit);
    *s == l
}

/// The position of `genre` in the list of known genres.
pub fn genre_index(genre: &String) -> (i: usize)
    ensures
        i == genre_index_of(genre@),
{
    if text_is(genre, "Pop") {
        0
    } else if text_is(genre, "Kpop") {
        1
    } else if text_is(genre, "Jpop") {
        2
    } else if text_is(genre, "Rock") {
        3
    } else if text_is(genre, "Metal") {
        4
    } else if text_is(genre, "Reggaet\u{f3}n") {
        5
    } else if text_is(genre, "Rap") {
        6
    } else if text_is(genre, "Cl\u{e1}sica") {
        7
    } else if text_is(genre, "Indie") {
        8
    } else if text_is(genre, "Jazz") {
        9
    } else if text_is(genre, "Electr\u{f3}nica") {
        10
    } else {
        0
    }
}

/// The position of `language` in the list of known languages.
pub fn language_index(language: &String) -> (i: usize)
    ensures
        i == language_index_of(language@),
{
    if text_is(language, "Espa\u{f1}ol") {
        0
    } else if text_is(language, "Ingl\u{e9}s") {
        1
    } else if text_is(language, "Coreano") {
        2
    } else if text_is(language, "Japon\u{e9}s") {
        3
    } else if text_is(language, "Franc\u{e9}s") {
        4
    } else if text_is(language, "Italiano") {
        5
    } else if text_is(language, "Alem\u{e1}n") {
        6
    } else if text_is(language, "Sin letra") {
        7
    } else {
        0
    }
}

/// Whether `line` can be read as a song line: see [`song_line_ok`].
pub fn song_line_is_valid(line: &str) -> (b: bool)
    ensures
        b == song_line_ok(line@),
{
    let v = chars_of(line);
    let bounds = split_bounds(&v);
    if bounds.len() <= 3 {
        true
    } else {
        let (lo, hi) = bounds[3];
        let year = parse_u16_in(&v, lo, hi);
        year.is_some()
    }
}

fn field_text(line: &str, v: &Vec<char>, bounds: &Vec<(usize, usize)>, k: usize) -> (f: String)
    requires
        v@ == line@,
        bounds.len() == split_fields(v@).len(),
        forall|j: int|
            #![trigger bounds@[j]]
            0 <= j < bounds.len() ==> {
                &&& bounds@[j].0 <= bounds@[j].1 <= v.len()
                &&& v@.subrange(bounds@[j].0 as int, bounds@[j].1 as int) == split_fields(v@)[j]
            },
    ensures
        f@ == field_or_empty(split_fields(line@), k as int),
{
    if k < bounds.len() {
        let (lo, hi) = bounds[k];
        assert(v@.subrange(lo as int, hi as int) == split_fields(v@)[k as int]);
        String::from_str(line.substring_char(lo, hi))
    } else {
        String::new()
    }
}

/// The song that `line`, of the form `name; author; genre; year; language;
/// url`, describes (see [`song_record`]); both indexes are zero.
pub fn parse_song_record(line: &str) -> (s: Song)
    requires
        song_line_ok(line@),
    ensures
        s@ == song_record(line@),
{
    let v = chars_of(line);
    let bounds = split_bounds(&v);
    let name = field_text(line, &v, &bounds, 0);
    let author = field_text(line, &v, &bounds, 1);
    let genre = field_text(line, &v, &bounds, 2);
    let language = field_text(line, &v, &bounds, 4);
    let url = field_text(line, &v, &bounds, 5);
    let year: u16 = if bounds.len() > 3 {
        let (lo, hi) = bounds[3];
        assert(v@.subrange(lo as int, hi as int) == split_fields(v@)[3]);
        match parse_u16_in(&v, lo, hi) {
            Some(y) => y,
            None => 0,
        }
    } else {
        0
    };
    Song { name, author, genre, year, language, url, genre_index: 0, language_index: 0 }
}

/// The song that a line of the catalogue describes, with the indexes of its
/// genre and language (see [`catalogue_song`]).
pub fn parse_catalogue_song(line: &str) -> (s: Song)
    requires
        song_line_ok(line@),
    ensures
        s@ == catalogue_song(line@),
{
    let mut s = parse_song_record(line);
    s.genre_index = genre_index(&s.genre);
    s.language_index = language_index(&s.language);
    s
}

/// The songs of a catalogue whose lines are `lines`, one song per line, in
/// order.
pub fn parse_catalogue(lines: &Vec<String>) -> (songs: Vec<Song>)
    requires
        forall|i: int| 0 <= i < lines.len() ==> song_line_ok(#[trigger] lines@[i]@),
    ensures
        songs.len() == lines.len(),
        forall|i: int| 0 <= i < lines.len() ==> #[trigger] songs@[i]@ == catalogue_song(lines@[i]@),
{
    let mut songs: Vec<Song> = Vec::new();
    for i in 0..lines.len()
        invariant
            songs.len() == i,
            forall|i: int| 0 <= i < lines.len() ==> song_line_ok(#[trigger] lines@[i]@),
            forall|j: int| 0 <= j < i ==> #[trigger] songs@[j]@ == catalogue_song(lines@[j]@),
    {
        let s = parse_catalogue_song(lines[i].as_str());
        songs.push(s);
    }
    songs
}

/// Whether `a` and `b` differ in length or in one of their first two
/// characters (so differ).
spec fn distinct_names(a: Seq<char>, b: Seq<char>) -> bool {
    a.len() != b.len() || a[0] != b[0] || a[1] != b[1]
}

/// The known genres, in the order of their indexes.
pub open spec fn known_genres() -> Seq<Seq<char>> {
    seq![
        "Pop"@,
        "Kpop"@,
        "Jpop"@,
        "Rock"@,
        "Metal"@,
        "Reggaet\u{f3}n"@,
        "Rap"@,
        "Cl\u{e1}sica"@,
        "Indie"@,
        "Jazz"@,
        "Electr\u{f3}nica"@,
    ]
}

/// The known languages, in the order of their indexes.
pub open spec fn known_languages() -> Seq<Seq<char>> {
    seq![
        "Espa\u{f1}ol"@,
        "Ingl\u{e9}s"@,
        "Coreano"@,
        "Japon\u{e9}s"@,
        "Franc\u{e9}s"@,
        "Italiano"@,
        "Alem\u{e1}n"@,
        "Sin letra"@,
    ]
}


/// The index of a genre is its position in the list of known genres, and
/// zero for a genre that is not in it (Rock is 3, Metal 4, Jazz 9).
pub proof fn lemma_genre_index_is_position(g: Seq<char>)
    ensures
        forall|k: int| 0 <= k < known_genres().len() && g == known_genres()[k] ==> genre_index_of(g) == k,
        !known_genres().contains(g) ==> genre_index_of(g) == 0,
{
    reveal_strlit("Pop");
    reveal_strlit("Kpop");
    reveal_strlit("Jpop");
    reveal_strlit("Rock");
    reveal_strlit("Metal");
    reveal_strlit("Reggaet\u{f3}n");
    reveal_strlit("Rap");
    reveal_strlit("Cl\u{e1}sica");
    reveal_strlit("Indie");
    reveal_strlit("Jazz");
    reveal_strlit("Electr\u{f3}nica");
    reveal_strlit("Espa\u{f1}ol");
    reveal_strlit("Ingl\u{e9}s");
    reveal_strlit("Coreano");
    reveal_strlit("Japon\u{e9}s");
    reveal_strlit("Franc\u{e9}s");
    reveal_strlit("Italiano");
    reveal_strlit("Alem\u{e1}n");
    reveal_strlit("Sin letra");
    let names = known_genres();
    assert forall|k: int| 0 <= k < names.len() && g == names[k] implies genre_index_of(g) == k by {
        if k == 0 {
        } else if k == 1 {
            assert(distinct_names("Kpop"@, "Pop"@));
        } else if k == 2 {
            assert(distinct_names("Jpop"@, "Pop"@));
            assert(distinct_names("Jpop"@, "Kpop"@));
        } else if k == 3 {
            assert(distinct_names("Rock"@, "Pop"@));
            assert(distinct_names("Rock"@, "Kpop"@));
            assert(distinct_names("Rock"@, "Jpop"@));
        } else if k == 4 {
            assert(distinct_names("Metal"@, "Pop"@));
            assert(distinct_names("Metal"@, "Kpop"@));
            assert(distinct_names("Metal"@, "Jpop"@));
            assert(distinct_names("Metal"@, "Rock"@));
        } else if k == 5 {
            assert(distinct_names("Reggaet\u{f3}n"@, "Pop"@));
            assert(distinct_names("Reggaet\u{f3}n"@, "Kpop"@));
            assert(distinct_names("Reggaet\u{f3}n"@, "Jpop"@));
            assert(distinct_names("Reggaet\u{f3}n"@, "Rock"@));
            assert(distinct_names("Reggaet\u{f3}n"@, "Metal"@));
        } else if k == 6 {
            assert(distinct_names("Rap"@, "Pop"@));
            assert(distinct_names("Rap"@, "Kpop"@));
            assert(distinct_names("Rap"@, "Jpop"@));
            assert(distinct_names("Rap"@, "Rock"@));
            assert(distinct_names("Rap"@, "Metal"@));
            assert(distinct_names("Rap"@, "Reggaet\u{f3}n"@));
        } else if k == 7 {
            assert(distinct_names("Cl\u{e1}sica"@, "Pop"@));
            assert(distinct_names("Cl\u{e1}sica"@, "Kpop"@));
            assert(distinct_names("Cl\u{e1}sica"@, "Jpop"@));
            assert(distinct_names("Cl\u{e1}sica"@, "Rock"@));
            assert(distinct_names("Cl\u{e1}sica"@, "Metal"@));
            assert(distinct_names("Cl\u{e1}sica"@, "Reggaet\u{f3}n"@));
            assert(distinct_names("Cl\u{e1}sica"@, "Rap"@));
        } else if k == 8 {
            assert(distinct_names("Indie"@, "Pop"@));
            assert(distinct_names("Indie"@, "Kpop"@));
            assert(distinct_names("Indie"@, "Jpop"@));
            assert(distinct_names("Indie"@, "Rock"@));
            assert(distinct_names("Indie"@, "Metal"@));
            assert(distinct_names("Indie"@, "Reggaet\u{f3}n"@));
            assert(distinct_names("Indie"@, "Rap"@));
            assert(distinct_names("Indie"@, "Cl\u{e1}sica"@));
        } else if k == 9 {
            assert(distinct_names("Jazz"@, "Pop"@));
            assert(distinct_names("Jazz"@, "Kpop"@));
            assert(distinct_names("Jazz"@, "Jpop"@));
            assert(distinct_names("Jazz"@, "Rock"@));
            assert(distinct_names("Jazz"@, "Metal"@));
            assert(distinct_names("Jazz"@, "Reggaet\u{f3}n"@));
            assert(distinct_names("Jazz"@, "Rap"@));
            assert(distinct_names("Jazz"@, "Cl\u{e1}sica"@));
            assert(distinct_names("Jazz"@, "Indie"@));
        } else if k == 10 {
            assert(distinct_names("Electr\u{f3}nica"@, "Pop"@));
            assert(distinct_names("Electr\u{f3}nica"@, "Kpop"@));
            assert(distinct_names("Electr\u{f3}nica"@, "Jpop"@));
            assert(distinct_names("Electr\u{f3}nica"@, "Rock"@));
            assert(distinct_names("Electr\u{f3}nica"@, "Metal"@));
            assert(distinct_names("Electr\u{f3}nica"@, "Reggaet\u{f3}n"@));
            assert(distinct_names("Electr\u{f3}nica"@, "Rap"@));
            assert(distinct_names("Electr\u{f3}nica"@, "Cl\u{e1}sica"@));
            assert(distinct_names("Electr\u{f3}nica"@, "Indie"@));
            assert(distinct_names("Electr\u{f3}nica"@, "Jazz"@));
        }
    }
    if !names.contains(g) {
        assert forall|k: int| 0 <= k < names.len() implies g != names[k] by {
            if g == names[k] {
                assert(names.contains(g));
            }
        }
        assert(g != names[0] && g != names[1] && g != names[2] && g != names[3]);
        assert(g != names[4] && g != names[5] && g != names[6] && g != names[7]);
        assert(g != names[8] && g != names[9] && g != names[10]);
    }
}

/// The index of a language is its position in the list of known
/// languages, and zero for a language that is not in it.
pub proof fn lemma_language_index_is_position(l: Seq<char>)
    ensures
        forall|k: int|
            0 <= k < known_languages().len() && l == known_languages()[k] ==> language_index_of(l) == k,
        !known_languages().contains(l) ==> language_index_of(l) == 0,
{
    reveal_strlit("Pop");
    reveal_strlit("Kpop");
    reveal_strlit("Jpop");
    reveal_strlit("Rock");
    reveal_strlit("Metal");
    reveal_strlit("Reggaet\u{f3}n");
    reveal_strlit("Rap");
    reveal_strlit("Cl\u{e1}sica");
    reveal_strlit("Indie");
    reveal_strlit("Jazz");
    reveal_strlit("Electr\u{f3}nica");
    reveal_strlit("Espa\u{f1}ol");
    reveal_strlit("Ingl\u{e9}s");
    reveal_strlit("Coreano");
    reveal_strlit("Japon\u{e9}s");
    reveal_strlit("Franc\u{e9}s");
    reveal_strlit("Italiano");
    reveal_strlit("Alem\u{e1}n");
    reveal_strlit("Sin letra");
    let names = known_languages();
    assert forall|k: int| 0 <= k < names.len() && l == names[k] implies language_index_of(l) == k by {
        if k == 0 {
        } else if k == 1 {
            assert(distinct_names("Ingl\u{e9}s"@, "Espa\u{f1}ol"@));
        } else if k == 2 {
            assert(distinct_names("Coreano"@, "Espa\u{f1}ol"@));
            assert(distinct_names("Coreano"@, "Ingl\u{e9}s"@));
        } else if k == 3 {
            assert(distinct_names("Japon\u{e9}s"@, "Espa\u{f1}ol"@));
            assert(distinct_names("Japon\u{e9}s"@, "Ingl\u{e9}s"@));
            assert(distinct_names("Japon\u{e9}s"@, "Coreano"@));
        } else if k == 4 {
            assert(distinct_names("Franc\u{e9}s"@, "Espa\u{f1}ol"@));
            assert(distinct_names("Franc\u{e9}s"@, "Ingl\u{e9}s"@));
            assert(distinct_names("Franc\u{e9}s"@, "Coreano"@));
            assert(distinct_names("Franc\u{e9}s"@, "Japon\u{e9}s"@));
        } else if k == 5 {
            assert(distinct_names("Italiano"@, "Espa\u{f1}ol"@));
            assert(distinct_names("Italiano"@, "Ingl\u{e9}s"@));
            assert(distinct_names("Italiano"@, "Coreano"@));
            assert(distinct_names("Italiano"@, "Japon\u{e9}s"@));
            assert(distinct_names("Italiano"@, "Franc\u{e9}s"@));
        } else if k == 6 {
            assert(distinct_names("Alem\u{e1}n"@, "Espa\u{f1}ol"@));
            assert(distinct_names("Alem\u{e1}n"@, "Ingl\u{e9}s"@));
            assert(distinct_names("Alem\u{e1}n"@, "Coreano"@));
            assert(distinct_names("Alem\u{e1}n"@, "Japon\u{e9}s"@));
            assert(distinct_names("Alem\u{e1}n"@, "Franc\u{e9}s"@));
            assert(distinct_names("Alem\u{e1}n"@, "Italiano"@));
        } else if k == 7 {
            assert(distinct_names("Sin letra"@, "Espa\u{f1}ol"@));
            assert(distinct_names("Sin letra"@, "Ingl\u{e9}s"@));
            assert(distinct_names("Sin letra"@, "Coreano"@));
            assert(distinct_names("Sin letra"@, "Japon\u{e9}s"@));
            assert(distinct_names("Sin letra"@, "Franc\u{e9}s"@));
            assert(distinct_names("Sin letra"@, "Italiano"@));
            assert(distinct_names("Sin letra"@, "Alem\u{e1}n"@));
        }
    }
    if !names.contains(l) {
        assert forall|k: int| 0 <= k < names.len() implies l != names[k] by {
            if l == names[k] {
                assert(names.contains(l));
            }
        }
        assert(l != names[0] && l != names[1] && l != names[2] && l != names[3]);
        assert(l != names[4] && l != names[5] && l != names[6] && l != names[7]);
    }
}

/// A song of the catalogue is the song its line describes, with the
/// indexes of the genre and the language it names.
pub proof fn lemma_catalogue_song_indexes(line: Seq<char>)
    ensures
        catalogue_song(line).genre_index == genre_index_of(catalogue_song(line).genre),
        catalogue_song(line).language_index == language_index_of(catalogue_song(line).language),
        catalogue_song(line).name == song_record(line).name,
        catalogue_song(line).author == song_record(line).author,
        catalogue_song(line).genre == song_record(line).genre,
        catalogue_song(line).year == song_record(line).year,
        catalogue_song(line).language == song_record(line).language,
        catalogue_song(line).url == song_record(line).url,
{
}

/// A line made of the fields name, author, genre, year, language and url,
/// in that order, joined with `"; "`, where no field holds `"; "` and the
/// year is the text of an unsigned 16-bit number, reads as the song with
/// those fields, in that order (both indexes zero).
pub proof fn lemma_song_record_of_fields(
    name: Seq<char>,
    author: Seq<char>,
    genre: Seq<char>,
    year: Seq<char>,
    language: Seq<char>,
    url: Seq<char>,
)
    requires
        no_separator(name),
        no_separator(author),
        no_separator(genre),
        no_separator(year),
        no_separator(language),
        no_separator(url),
        parses_as_u16(year),
    ensures
        song_line_ok(join_fields(seq![name, author, genre, year, language, url])),
        song_record(join_fields(seq![name, author, genre, year, language, url])) == (SongView {
            name,
            author,
            genre,
            year: u16_value(year),
            language,
            url,
            genre_index: 0,
            language_index: 0,
        }),
{
    let fs = seq![name, author, genre, year, language, url];
    assert forall|k: int| 0 <= k < fs.len() implies no_separator(#[trigger] fs[k]) by {
        if k == 0 {
        } else if k == 1 {
        } else if k == 2 {
        } else if k == 3 {
        } else if k == 4 {
        } else {
        }
    }
    lemma_split_of_join(fs);
}

} // verus!
