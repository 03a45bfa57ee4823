use lib::song::{
    genre_index, language_index, parse_catalogue, parse_catalogue_song, parse_song_record,
    song_line_is_valid,
};

#[test]
fn a_full_line_gives_every_field() {
    let s = parse_song_record("Song; Someone; Rock; 1999; Ingl\u{e9}s; https://x.example/y");
    assert_eq!(s.name, "Song");
    assert_eq!(s.author, "Someone");
    assert_eq!(s.genre, "Rock");
    assert_eq!(s.year, 1999);
    assert_eq!(s.language, "Ingl\u{e9}s");
    assert_eq!(s.url, "https://x.example/y");
    assert_eq!(s.genre_index, 0);
    assert_eq!(s.language_index, 0);
}

#[test]
fn a_short_line_leaves_defaults() {
    let s = parse_song_record("Only; Two");
    assert_eq!(s.name, "Only");
    assert_eq!(s.author, "Two");
    assert_eq!(s.genre, "");
    assert_eq!(s.year, 0);
    assert_eq!(s.language, "");
    assert_eq!(s.url, "");
}

#[test]
fn extra_fields_are_not_read() {
    let s = parse_song_record("a; b; c; 5; d; e; f; g");
    assert_eq!(s.url, "e");
    assert_eq!(s.year, 5);
}

#[test]
fn catalogue_song_gets_indexes() {
    let s = parse_catalogue_song("N; A; Reggaet\u{f3}n; 2020; Espa\u{f1}ol; u");
    assert_eq!(s.genre_index, 5);
    assert_eq!(s.language_index, 0);
    let s = parse_catalogue_song("N; A; Electr\u{f3}nica; 2010; Sin letra; u");
    assert_eq!(s.genre_index, 10);
    assert_eq!(s.language_index, 7);
    let s = parse_catalogue_song("N; A; Polka; 2010; Klingon; u");
    assert_eq!(s.genre_index, 0);
    assert_eq!(s.language_index, 0);
}

#[test]
fn every_known_genre_and_language_has_its_index() {
    let genres = ["Pop", "Kpop", "Jpop", "Rock", "Metal", "Reggaet\u{f3}n", "Rap", "Cl\u{e1}sica",
        "Indie", "Jazz", "Electr\u{f3}nica"];
    for (i, g) in genres.iter().enumerate() {
        assert_eq!(genre_index(&g.to_string()), i);
    }
    let languages = ["Espa\u{f1}ol", "Ingl\u{e9}s", "Coreano", "Japon\u{e9}s", "Franc\u{e9}s",
        "Italiano", "Alem\u{e1}n", "Sin letra"];
    for (i, l) in languages.iter().enumerate() {
        assert_eq!(language_index(&l.to_string()), i);
    }
    assert_eq!(genre_index(&"pop".to_string()), 0);
    assert_eq!(genre_index(&"Jazz ".to_string()), 0);
}

#[test]
fn validity_is_about_the_year_field() {
    assert!(song_line_is_valid("a; b; c; 2000; d; e"));
    assert!(song_line_is_valid("a; b; c"));
    assert!(song_line_is_valid(""));
    assert!(!song_line_is_valid("a; b; c; year; d"));
    assert!(!song_line_is_valid("a; b; c; ; d"));
    assert!(!song_line_is_valid("a; b; c; 70000"));
}

#[test]
fn catalogue_reads_one_song_per_line() {
    let lines = vec![
        "One; A; Pop; 2001; Ingl\u{e9}s; u1".to_string(),
        "Two; B; Jazz; 1960; Franc\u{e9}s; u2".to_string(),
    ];
    let songs = parse_catalogue(&lines);
    assert_eq!(songs.len(), 2);
    assert_eq!(songs[0].name, "One");
    assert_eq!(songs[0].genre_index, 0);
    assert_eq!(songs[0].language_index, 1);
    assert_eq!(songs[1].year, 1960);
    assert_eq!(songs[1].genre_index, 9);
    assert_eq!(songs[1].language_index, 4);
}
