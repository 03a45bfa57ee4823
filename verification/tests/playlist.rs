use lib::playlist::{
    find_playlist, playlist_lines_are_readable, playlist_name_is_allowed, playlist_text,
    read_playlists, Playlist,
};
use lib::song::{parse_song_record, Song};

fn lines(text: &str) -> Vec<String> {
    text.lines().map(|l| l.to_string()).collect()
}

fn song(name: &str, year: u16) -> Song {
    Song {
        name: name.to_string(),
        author: "Author".to_string(),
        genre: "Rock".to_string(),
        year,
        language: "Ingl\u{e9}s".to_string(),
        url: "https://example.com/v".to_string(),
        genre_index: 3,
        language_index: 1,
    }
}

#[test]
fn new_playlist_is_empty_and_add_song_appends() {
    let mut p = Playlist::new();
    assert_eq!(p.name, "");
    assert!(p.songs.is_empty());
    p.add_song(song("x", 1));
    p.add_song(song("y", 2));
    assert_eq!(p.songs.len(), 2);
    assert_eq!(p.songs[0].name, "x");
    assert_eq!(p.songs[1].name, "y");
}

#[test]
fn playlist_text_is_exact() {
    let text = playlist_text("Mine", &vec![song("S1", 1999), song("S2", 2024)]);
    assert_eq!(
        text,
        "{Mine\nS1; Author; Rock; 1999; Ingl\u{e9}s; https://example.com/v\n\
         S2; Author; Rock; 2024; Ingl\u{e9}s; https://example.com/v\n}\n"
    );
    assert_eq!(playlist_text("", &vec![]), "{\n}\n");
}

#[test]
fn reading_a_file_of_playlists() {
    let file = "ignored line\n{ First \nA; a; Pop; 2000; x; u\nB; b; Rap; 2001; y; v\n}\n\
                outside; z; Pop; notayear\n{{Second\n  {Third\nC; c; Jazz; 1; q; w\n";
    let ls = lines(file);
    assert!(playlist_lines_are_readable(&ls));
    let ps = read_playlists(&ls);
    assert_eq!(ps.len(), 3);
    assert_eq!(ps[0].name, "First");
    assert_eq!(ps[0].songs.len(), 2);
    assert_eq!(ps[0].songs[1].name, "B");
    assert_eq!(ps[0].songs[1].year, 2001);
    assert_eq!(ps[0].songs[1].genre_index, 0);
    assert_eq!(ps[1].name, "Second");
    assert_eq!(ps[1].songs.len(), 0);
    assert_eq!(ps[2].name, "Third");
    assert_eq!(ps[2].songs[0].url, "w");
}

#[test]
fn a_bad_year_inside_a_playlist_cannot_be_read() {
    let ls = lines("{P\nA; a; Pop; 20x0; e; u\n}\n");
    assert!(!playlist_lines_are_readable(&ls));
    let ls = lines("A; a; Pop; 20x0; e; u\n{P\n}\n");
    assert!(playlist_lines_are_readable(&ls));
    assert_eq!(read_playlists(&ls).len(), 1);
}

#[test]
fn empty_file_has_no_playlist() {
    let ls: Vec<String> = Vec::new();
    assert!(playlist_lines_are_readable(&ls));
    assert_eq!(read_playlists(&ls).len(), 0);
}

#[test]
fn saved_playlist_reads_back() {
    let songs = vec![song("First song", 1985), song("Second; not", 7)];
    // The second song name holds the separator, so it does not fit; keep the first only.
    let songs = vec![songs[0].clone_fields()];
    let previous = "{Old\nX; y; Pop; 2000; z; w\n}\n".to_string();
    let text = previous + &playlist_text("New list", &songs);
    let ls = lines(&text);
    assert!(playlist_lines_are_readable(&ls));
    let ps = read_playlists(&ls);
    assert_eq!(ps.len(), 2);
    assert_eq!(ps[1].name, "New list");
    assert_eq!(ps[1].songs.len(), 1);
    let back = &ps[1].songs[0];
    assert_eq!(back.name, "First song");
    assert_eq!(back.author, "Author");
    assert_eq!(back.genre, "Rock");
    assert_eq!(back.year, 1985);
    assert_eq!(back.language, "Ingl\u{e9}s");
    assert_eq!(back.url, "https://example.com/v");
    assert_eq!(back.genre_index, 0);
}

trait CloneFields {
    fn clone_fields(&self) -> Song;
}

impl CloneFields for Song {
    fn clone_fields(&self) -> Song {
        let line = format!(
            "{}; {}; {}; {}; {}; {}",
            self.name, self.author, self.genre, self.year, self.language, self.url
        );
        parse_song_record(&line)
    }
}

#[test]
fn names_with_braces_are_not_allowed() {
    assert!(playlist_name_is_allowed("My list"));
    assert!(playlist_name_is_allowed(""));
    assert!(!playlist_name_is_allowed("a{b"));
    assert!(!playlist_name_is_allowed("}"));
}

#[test]
fn find_playlist_gives_the_first_of_that_name() {
    let ls = lines("{A\n}\n{B\n}\n{A\n}\n");
    let ps = read_playlists(&ls);
    assert_eq!(find_playlist(&ps, "A"), Some(0));
    assert_eq!(find_playlist(&ps, "B"), Some(1));
    assert_eq!(find_playlist(&ps, "C"), None);
    assert_eq!(find_playlist(&ps, "a"), None);
}
