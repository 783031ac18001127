use plainsong::chord::{is_chord, parse_chords};
use plainsong::latex::{part_style, PartStyle};
use plainsong::parser::{split_header, split_metadata, SongParser};
use plainsong::song::{Song, SongChord, SongLine, SongPart};

fn chars(s: &str) -> Vec<char> {
    s.chars().collect()
}

fn chord(name: &str, pos: usize) -> SongChord {
    SongChord::new(name.to_string(), pos)
}

fn chord_pairs(line: &SongLine) -> Vec<(String, usize)> {
    line.chords.iter().map(|c| (c.name.clone(), c.pos)).collect()
}

#[test]
fn chord_grammar_examples() {
    assert!(is_chord("Cm7"));
    assert!(!is_chord("H"));
    assert!(is_chord("C/G"));
    assert!(is_chord("Csus4add9"));
    assert!(!is_chord("Cx"));
}

#[test]
fn chord_grammar_more_names() {
    for name in [
        "C", "Bb", "F#", "Am", "Cmaj7", "Dmin", "Edim", "CΔ7", "C°", "Cø", "CØ7", "F#m7b5",
        "C13", "C11", "C10", "Caug", "Calt", "C+", "Cm/Bb", "G/F#", "Dsus2", "Dsus", "Cadd",
        "Cb9#11", "AM7",
    ] {
        assert!(is_chord(name), "{}", name);
    }
    for name in [
        "", "c", "H7", "C1", "C3", "C8", "Cmi", "Cma", "C/", "C/H", "C/Gbb", "Cm7+5", "Caugb",
        "Cab", "Am,", "G:", "C/G7",
    ] {
        assert!(!is_chord(name), "{}", name);
    }
}

#[test]
fn chord_line_offsets() {
    let chords = parse_chords(&chars("G       D")).unwrap();
    let got: Vec<(String, usize)> = chords.iter().map(|c| (c.name.clone(), c.pos)).collect();
    assert_eq!(got, vec![("G".to_string(), 0), ("D".to_string(), 8)]);

    let chords = parse_chords(&chars("  Am  C/G F ")).unwrap();
    let got: Vec<(String, usize)> = chords.iter().map(|c| (c.name.clone(), c.pos)).collect();
    assert_eq!(
        got,
        vec![("Am".to_string(), 2), ("C/G".to_string(), 6), ("F".to_string(), 10)]
    );
}

#[test]
fn chord_line_rejected_when_one_token_fails() {
    assert!(parse_chords(&chars("G D Hello")).is_none());
    assert!(parse_chords(&chars("Hello world")).is_none());
    // a tab is a token character, not a separator
    assert!(parse_chords(&chars("G\tD")).is_none());
}

#[test]
fn chord_line_empty_or_spaces() {
    assert_eq!(parse_chords(&chars("")).unwrap().len(), 0);
    assert_eq!(parse_chords(&chars("    ")).unwrap().len(), 0);
}

#[test]
fn metadata_line_split_at_last_separator() {
    let (k, v) = split_metadata(&chars("  artist: Jane")).unwrap();
    assert_eq!((k.as_str(), v.as_str()), ("artist", "Jane"));
    let (k, v) = split_metadata(&chars("key: a: b")).unwrap();
    assert_eq!((k.as_str(), v.as_str()), ("key: a", "b"));
    let (k, v) = split_metadata(&chars("time:12:00: now ")).unwrap();
    assert_eq!((k.as_str(), v.as_str()), ("time:12:00", "now "));
    assert!(split_metadata(&chars("Verse 1:")).is_none());
    assert!(split_metadata(&chars("a:b")).is_none());
}

#[test]
fn part_header_names() {
    assert_eq!(split_header(&chars("Verse 1:")).unwrap(), "Verse 1");
    assert_eq!(split_header(&chars("  Chorus:")).unwrap(), "Chorus");
    assert_eq!(split_header(&chars("a: b:")).unwrap(), "a: b");
    assert!(split_header(&chars("Chorus: ")).is_none());
    assert!(split_header(&chars("")).is_none());
}

#[test]
fn parse_scenario_verse() {
    let song = SongParser::parse("Title\nartist: Jane\n\nVerse 1:\nG       D\nHello world\n");
    assert_eq!(song.title, "Title");
    assert_eq!(song.metadata, vec![("artist".to_string(), "Jane".to_string())]);
    assert_eq!(song.parts.len(), 1);
    assert_eq!(song.parts[0].name, "Verse 1");
    assert_eq!(song.parts[0].lines.len(), 1);
    let line = &song.parts[0].lines[0];
    assert_eq!(line.text, "Hello world");
    assert_eq!(
        chord_pairs(line),
        vec![("G".to_string(), 0), ("D".to_string(), 8)]
    );
}

#[test]
fn parse_trailing_chord_line_flushed() {
    let song = SongParser::parse("Song\n\nChorus:\nAm\n\n");
    assert_eq!(song.parts.len(), 1);
    assert_eq!(song.parts[0].name, "Chorus");
    assert_eq!(song.parts[0].lines.len(), 1);
    assert_eq!(song.parts[0].lines[0].text, "");
    assert_eq!(chord_pairs(&song.parts[0].lines[0]), vec![("Am".to_string(), 0)]);
}

#[test]
fn parse_trailing_chord_line_at_end_of_text() {
    let song = SongParser::parse("Song\n\nChorus:\nla la\nAm");
    assert_eq!(song.parts.len(), 1);
    assert_eq!(song.parts[0].lines.len(), 2);
    assert_eq!(song.parts[0].lines[1].text, "");
    assert_eq!(chord_pairs(&song.parts[0].lines[1]), vec![("Am".to_string(), 0)]);
}

#[test]
fn parse_two_chord_lines_in_a_row() {
    let song = SongParser::parse("Song\n\nIntro:\nC G\nAm  F\n\n");
    let lines = &song.parts[0].lines;
    assert_eq!(lines.len(), 2);
    assert_eq!(lines[0].text, "");
    assert_eq!(chord_pairs(&lines[0]), vec![("C".to_string(), 0), ("G".to_string(), 2)]);
    assert_eq!(lines[1].text, "");
    assert_eq!(chord_pairs(&lines[1]), vec![("Am".to_string(), 0), ("F".to_string(), 4)]);
}

#[test]
fn parse_chord_line_then_lyrics_then_chords() {
    let song = SongParser::parse("Song\n\nVerse 1:\nC\nOne\nG\nD\nTwo\n");
    let lines = &song.parts[0].lines;
    assert_eq!(lines.len(), 3);
    assert_eq!(lines[0].text, "One");
    assert_eq!(chord_pairs(&lines[0]), vec![("C".to_string(), 0)]);
    assert_eq!(lines[1].text, "");
    assert_eq!(chord_pairs(&lines[1]), vec![("G".to_string(), 0)]);
    assert_eq!(lines[2].text, "Two");
    assert_eq!(chord_pairs(&lines[2]), vec![("D".to_string(), 0)]);
}

#[test]
fn parse_blank_lines_separate_parts() {
    let song = SongParser::parse(
        "\n\n  My Song  \n\nartist: A\nalbum: B\n\nVerse 1:\nla\n\n\n\nChorus:\nlo\nli\n\nno header\n",
    );
    assert_eq!(song.title, "My Song");
    assert_eq!(song.metadata.len(), 2);
    assert_eq!(song.parts.len(), 3);
    assert_eq!(song.parts[0].name, "Verse 1");
    assert_eq!(song.parts[1].name, "Chorus");
    assert_eq!(song.parts[1].lines.len(), 2);
    assert_eq!(song.parts[2].name, "");
    assert_eq!(song.parts[2].lines[0].text, "no header");
    for part in song.parts.iter() {
        assert!(!part.is_empty());
    }
}

#[test]
fn parse_empty_text() {
    let song = SongParser::parse("");
    assert_eq!(song.title, "");
    assert!(song.metadata.is_empty());
    assert!(song.parts.is_empty());
    let song = SongParser::parse("\n  \n\t\n");
    assert_eq!(song.title, "");
    assert!(song.parts.is_empty());
}

#[test]
fn parse_metadata_key_overwritten() {
    let song = SongParser::parse("T\nartist: A\nkey: x: y\nartist: B\nVerse 1:\nla\n");
    assert_eq!(
        song.metadata,
        vec![
            ("artist".to_string(), "B".to_string()),
            ("key: x".to_string(), "y".to_string())
        ]
    );
    assert_eq!(song.parts.len(), 1);
    assert_eq!(song.parts[0].name, "Verse 1");
}

#[test]
fn parse_crlf_lines() {
    let song = SongParser::parse("T\r\nartist: J\r\n\r\nChorus:\r\nla\r\n");
    assert_eq!(song.title, "T");
    assert_eq!(song.metadata, vec![("artist".to_string(), "J".to_string())]);
    assert_eq!(song.parts[0].name, "Chorus");
    assert_eq!(song.parts[0].lines[0].text, "la");
}

#[test]
fn parse_is_repeatable() {
    let text = "Title\nartist: Jane\n\nVerse 1:\nG       D\nHello world\n\nChorus:\nAm\n\n";
    let mut a = SongParser::parse(text);
    let mut b = SongParser::parse(text);
    assert_eq!(a.to_html(), b.to_html());
    assert_eq!(a.to_latex(), b.to_latex());
    assert_eq!(format!("{:?}", a), format!("{:?}", b));
}

#[test]
fn latex_chord_only_line() {
    let mut line = SongLine::new(String::new(), vec![chord("C", 0)]);
    assert_eq!(line.to_latex(), "\\nolyrics{\\[C]}\n");
}

#[test]
fn latex_line_without_chords() {
    let mut line = SongLine::new("la la".to_string(), vec![]);
    assert_eq!(line.to_latex(), "la la\n");
    let mut line = SongLine::new(String::new(), vec![]);
    assert_eq!(line.to_latex(), "\n");
}

#[test]
fn latex_line_inserts_from_the_right() {
    let mut line = SongLine::new("Hello world".to_string(), vec![chord("G", 0), chord("D", 8)]);
    assert_eq!(line.to_latex(), "\\[G]Hello wo\\[D]rld\n");
    assert_eq!(chord_pairs(&line), vec![("D".to_string(), 8), ("G".to_string(), 0)]);
    let mut line = SongLine::new("Hello world".to_string(), vec![chord("D", 6), chord("G", 0), chord("Em", 3)]);
    assert_eq!(line.to_latex(), "\\[G]Hel\\[Em]lo \\[D]world\n");
}

#[test]
fn latex_line_pads_overhanging_chords() {
    let mut line = SongLine::new("Hi".to_string(), vec![chord("G", 0), chord("C", 5)]);
    assert_eq!(line.to_latex(), "\\[G]Hi   \\[C]\n");
    let mut line = SongLine::new(String::new(), vec![chord("Am", 0), chord("F", 4)]);
    assert_eq!(line.to_latex(), "\\nolyrics{\\[Am]    \\[F]}\n");
}

#[test]
fn latex_part_styles() {
    let mut verse = SongPart::new("Verse 12".to_string(), vec![SongLine::new("la".to_string(), vec![])]);
    assert_eq!(verse.to_latex(), "\\beginverse\n\tla\n\\endverse\n");
    let mut bridge = SongPart::new("Bridge".to_string(), vec![SongLine::new("la".to_string(), vec![])]);
    assert_eq!(
        bridge.to_latex(),
        "\\beginverse*\n\t\\textbf{Bridge:}\n\tla\n\\endverse\n"
    );
    let mut chorus = SongPart::new("CHORUS".to_string(), vec![SongLine::new("la".to_string(), vec![])]);
    assert_eq!(chorus.to_latex(), "\\beginchorus\n\tla\n\\endchorus\n");
    let mut verse = SongPart::new("Verse".to_string(), vec![]);
    assert_eq!(verse.to_latex(), "\\beginverse*\n\t\\textbf{Verse:}\n\\endverse\n");
}

#[test]
fn part_style_of_lower_names() {
    assert_eq!(part_style("chorus"), PartStyle::Chorus);
    assert_eq!(part_style("verse 1"), PartStyle::NumberedVerse);
    assert_eq!(part_style("verse 12"), PartStyle::NumberedVerse);
    assert_eq!(part_style("verse "), PartStyle::Named);
    assert_eq!(part_style("verse 1a"), PartStyle::Named);
    assert_eq!(part_style("verse1"), PartStyle::Named);
    assert_eq!(part_style("Chorus"), PartStyle::Named);
    assert_eq!(part_style("bridge"), PartStyle::Named);
}

#[test]
fn latex_song() {
    let mut song = SongParser::parse("Title\nartist: Jane\n\nVerse 1:\nG       D\nHello world\n");
    assert_eq!(
        song.to_latex(),
        "\\beginsong{Title}[by={Jane}\n\n\\beginverse\n\t\\[G]Hello wo\\[D]rld\n\\endverse\n\n\\endsong\n"
    );
    let mut song = Song { title: "T".to_string(), metadata: vec![], parts: vec![] };
    assert_eq!(song.to_latex(), "\\beginsong{T}\n\n\\endsong\n");
}

#[test]
fn html_song() {
    let song = SongParser::parse("Title\nartist: Jane\n\nVerse 1:\nG       D\nHello world\nAm\n");
    assert_eq!(
        song.to_html(),
        "<pre><h1>Title</h1>\nartist: Jane\n\n\n<em>Verse 1:</em>\n<b>G       D</b>\nHello world\n<b>Am</b>\n\n\n</pre>"
    );
}

#[test]
fn html_overlapping_chords() {
    let line = SongLine::new("x".to_string(), vec![chord("Cmaj7", 0), chord("D", 2)]);
    assert_eq!(line.to_html(), "<b>Cmaj7D</b>\nx\n");
}

#[test]
fn whitespace_only_line_closes_part() {
    let song = SongParser::parse("T\n\nVerse 1:\nla\n\t \nChorus:\nlo\n");
    assert_eq!(song.parts.len(), 2);
    assert_eq!(song.parts[0].name, "Verse 1");
    assert_eq!(song.parts[0].lines.len(), 1);
    assert_eq!(song.parts[1].name, "Chorus");
}

#[test]
fn chords_before_any_header_wait_for_lyrics() {
    let song = SongParser::parse("T\n\nG\n\nChorus:\nla\n");
    assert_eq!(song.parts.len(), 1);
    assert_eq!(song.parts[0].name, "Chorus");
    assert_eq!(song.parts[0].lines[0].text, "la");
    assert_eq!(chord_pairs(&song.parts[0].lines[0]), vec![("G".to_string(), 0)]);
}

#[test]
fn offsets_count_characters() {
    let chords = parse_chords(&chars("CΔ7 G")).unwrap();
    let got: Vec<(String, usize)> = chords.iter().map(|c| (c.name.clone(), c.pos)).collect();
    assert_eq!(got, vec![("CΔ7".to_string(), 0), ("G".to_string(), 4)]);
    let mut line = SongLine::new("día".to_string(), vec![chord("C", 2)]);
    assert_eq!(line.to_latex(), "dí\\[C]a\n");
}

#[test]
fn title_is_trimmed() {
    let song = SongParser::parse("\u{a0} Title\t\n");
    assert_eq!(song.title, "Title");
}
