//! The parser: a state machine that reads a song sheet one line at a time.
//!
//! It starts by looking for the title, then reads `key: value` metadata lines,
//! then the body: part headers, chord lines and lyric lines, with blank lines
//! between parts. A chord line waits for the lyric line below it; a chord line
//! that no lyric line follows becomes a line of chords alone.

use vstd::prelude::*;
use crate::chord::{chord_line, chord_line_not_blank, parse_chords};
use crate::song::{
    ChordModel, LineModel, PartModel, Song, SongChord, SongLine, SongModel, SongPart, chord_models,
    find_last_key, lemma_metadata_update, line_models, metadata_map, pair_views, part_models,
    part_present,
};
use crate::text::{
    blank, chars_of, is_blank, is_white, is_white_space, lines_of, skip_white, split_lines, string_of,
    trim, trim_chars, views,
};

verus! {

/// Where the parser stands in a song sheet.
#[derive(PartialEq, Eq, Structural, Clone, Copy, Debug)]
pub enum ParserState {
    /// Before the title.
    Start,
    /// In the metadata below the title.
    Definition,
    /// In the parts.
    Body,
}

/// What a parser holds: its state, the song read so far, the chords of a
/// chord line that no lyric line has taken yet, and the part being read.
pub struct ParserModel {
    pub state: ParserState,
    pub song: SongModel,
    pub pending: Seq<ChordModel>,
    pub part: PartModel,
}

pub open spec fn empty_part() -> PartModel {
    PartModel { name: Seq::empty(), lines: Seq::empty() }
}

/// A line of chords alone.
pub open spec fn chord_only(cs: Seq<ChordModel>) -> LineModel {
    LineModel { text: Seq::empty(), chords: cs }
}

/// `lines` with the pending chords added as a line of their own, if there are any.
pub open spec fn with_pending(lines: Seq<LineModel>, pending: Seq<ChordModel>) -> Seq<LineModel> {
    if pending.len() > 0 {
        lines.push(chord_only(pending))
    } else {
        lines
    }
}

/// Whether `l` has `": "` at index `p`.
pub open spec fn is_separator_at(l: Seq<char>, p: int) -> bool {
    0 <= p && p + 1 < l.len() && l[p] == ':' && l[p + 1] == ' '
}

/// The index of the last `": "` that starts before `j`, or -1.
pub open spec fn last_separator(l: Seq<char>, j: int) -> int
    decreases j,
{
    if j <= 0 {
        -1
    } else if is_separator_at(l, j - 1) {
        j - 1
    } else {
        last_separator(l, j - 1)
    }
}

/// The key and value of a metadata line `key: value`: the line is split at
/// its last `": "`, and the key loses its leading whitespace.
pub open spec fn metadata_of(l: Seq<char>) -> Option<(Seq<char>, Seq<char>)> {
    let p = last_separator(l, l.len() as int);
    if p < 0 {
        None
    } else {
        Some((l.subrange(skip_white(l, 0), p), l.subrange(p + 2, l.len() as int)))
    }
}

/// The name in a part header: a line that ends in a colon; the name is what
/// stands before that colon, without leading whitespace.
pub open spec fn header_of(l: Seq<char>) -> Option<Seq<char>> {
    if l.len() > 0 && l.last() == ':' {
        Some(l.subrange(skip_white(l, 0), l.len() - 1))
    } else {
        None
    }
}

/// A blank line in the body closes the part being read, if there is one: the
/// pending chords become its last line and the part joins the song.
pub open spec fn close_part(m: ParserModel) -> ParserModel {
    if !part_present(m.part) {
        m
    } else {
        let part = PartModel { name: m.part.name, lines: with_pending(m.part.lines, m.pending) };
        ParserModel {
            song: SongModel { parts: m.song.parts.push(part), ..m.song },
            pending: Seq::empty(),
            part: empty_part(),
            ..m
        }
    }
}

/// A line of the body that is not blank.
pub open spec fn body_line(m: ParserModel, l: Seq<char>) -> ParserModel {
    if !part_present(m.part) && header_of(l) is Some {
        ParserModel { part: PartModel { name: header_of(l)->0, lines: Seq::empty() }, ..m }
    } else {
        match chord_line(l) {
            Some(cs) => ParserModel {
                pending: cs,
                part: PartModel { lines: with_pending(m.part.lines, m.pending), ..m.part },
                ..m
            },
            None => ParserModel {
                pending: Seq::empty(),
                part: PartModel {
                    lines: m.part.lines.push(LineModel { text: l, chords: m.pending }),
                    ..m.part
                },
                ..m
            },
        }
    }
}

pub open spec fn body_step(m: ParserModel, l: Seq<char>) -> ParserModel {
    if is_blank(l) {
        close_part(m)
    } else {
        body_line(m, l)
    }
}

/// What reading the line `l` does to a parser.
pub open spec fn step(m: ParserModel, l: Seq<char>) -> ParserModel {
    match m.state {
        ParserState::Start => {
            if is_blank(l) {
                m
            } else {
                ParserModel {
                    state: ParserState::Definition,
                    song: SongModel { title: trim(l), ..m.song },
                    ..m
                }
            }
        },
        ParserState::Definition => {
            if is_blank(l) {
                m
            } else {
                match metadata_of(l) {
                    Some(kv) => ParserModel {
                        song: SongModel { metadata: m.song.metadata.insert(kv.0, kv.1), ..m.song },
                        ..m
                    },
                    None => body_step(ParserModel { state: ParserState::Body, ..m }, l),
                }
            }
        },
        ParserState::Body => body_step(m, l),
    }
}

pub open spec fn initial() -> ParserModel {
    ParserModel {
        state: ParserState::Start,
        song: SongModel { title: Seq::empty(), metadata: Map::empty(), parts: Seq::empty() },
        pending: Seq::empty(),
        part: empty_part(),
    }
}

/// The parser after reading the lines `ls` one after the other.
pub open spec fn run(m: ParserModel, ls: Seq<Seq<char>>) -> ParserModel
    decreases ls.len(),
{
    if ls.len() == 0 {
        m
    } else {
        step(run(m, ls.drop_last()), ls.last())
    }
}

/// The song that a text holds: its lines are read, then one blank line more
/// to close the last part.
pub open spec fn parse_song(s: Seq<char>) -> SongModel {
    run(initial(), lines_of(s).push(Seq::empty())).song
}

/// Every part of the song is present: no part without name and lines.
pub open spec fn parts_present(song: SongModel) -> bool {
    forall|k: int| 0 <= k < song.parts.len() ==> part_present(#[trigger] song.parts[k])
}

proof fn lemma_run_parts_present(m: ParserModel, ls: Seq<Seq<char>>)
    requires
        parts_present(m.song),
    ensures
        parts_present(run(m, ls).song),
    decreases ls.len(),
{
    if ls.len() > 0 {
        lemma_run_parts_present(m, ls.drop_last());
        let prev = run(m, ls.drop_last());
        let next = step(prev, ls.last());
        if next.song.parts != prev.song.parts {
            assert forall|k: int| 0 <= k < next.song.parts.len() implies part_present(
                #[trigger] next.song.parts[k],
            ) by {
                if k < prev.song.parts.len() {
                    assert(next.song.parts[k] == prev.song.parts[k]);
                }
            }
        }
    }
}

/// Parsing is a function of the text alone: the same text gives the same song.
pub proof fn parse_is_deterministic(a: Seq<char>, b: Seq<char>)
    requires
        a == b,
    ensures
        parse_song(a) == parse_song(b),
{
}

/// No part without a name and without lines ever joins a parsed song.
pub proof fn parsed_parts_are_present(s: Seq<char>)
    ensures
        parts_present(parse_song(s)),
{
    assert(part_models(Seq::<SongPart>::empty()) =~= Seq::empty());
    lemma_run_parts_present(initial(), lines_of(s).push(Seq::empty()));
}

/// In the body, a blank line adds one part to the song when the part being
/// read has a name or a line, and none otherwise; the part added is the one
/// being read, with the pending chords as its last line, and the parser goes
/// on with an empty part and nothing pending.
pub proof fn blank_line_closes_part(m: ParserModel, l: Seq<char>)
    requires
        m.state == ParserState::Body,
        is_blank(l),
    ensures
        step(m, l).song.parts.len() == m.song.parts.len() + if part_present(m.part) {
            1int
        } else {
            0int
        },
        step(m, l).song.parts.subrange(0, m.song.parts.len() as int) == m.song.parts,
        part_present(m.part) ==> {
            &&& step(m, l).song.parts.last() == PartModel {
                name: m.part.name,
                lines: with_pending(m.part.lines, m.pending),
            }
            &&& step(m, l).part == empty_part()
            &&& step(m, l).pending.len() == 0
        },
{
    assert(step(m, l).song.parts.subrange(0, m.song.parts.len() as int) =~= m.song.parts);
}

/// In the body, a line that is not blank adds no part to the song.
pub proof fn body_line_adds_no_part(m: ParserModel, l: Seq<char>)
    requires
        m.state == ParserState::Body,
        !is_blank(l),
    ensures
        step(m, l).song.parts == m.song.parts,
{
}

/// A line that the body reads as lyrics wherever it stands: not blank, not a
/// chord line and not a part header.
pub open spec fn is_lyric_line(l: Seq<char>) -> bool {
    !is_blank(l) && chord_line(l) is None && header_of(l) is None
}

/// The number of groups of non-blank lines in `ls` that a blank line closes.
pub open spec fn closed_groups(ls: Seq<Seq<char>>) -> nat
    decreases ls.len(),
{
    if ls.len() == 0 {
        0
    } else if is_blank(ls.last()) && ls.len() >= 2 && !is_blank(ls[ls.len() - 2]) {
        closed_groups(ls.drop_last()) + 1
    } else {
        closed_groups(ls.drop_last())
    }
}

/// The group of non-blank lines at the end of `ls` holds a lyric line.
pub open spec fn open_group_has_lyrics(ls: Seq<Seq<char>>) -> bool
    decreases ls.len(),
{
    if ls.len() == 0 || is_blank(ls.last()) {
        false
    } else {
        is_lyric_line(ls.last()) || open_group_has_lyrics(ls.drop_last())
    }
}

/// Every group of non-blank lines in `ls` that a blank line closes holds a
/// lyric line.
pub open spec fn closed_groups_have_lyrics(ls: Seq<Seq<char>>) -> bool
    decreases ls.len(),
{
    ls.len() == 0 || (closed_groups_have_lyrics(ls.drop_last()) && (is_blank(ls.last())
        && ls.len() >= 2 && !is_blank(ls[ls.len() - 2]) ==> open_group_has_lyrics(
        ls.drop_last(),
    )))
}

/// Read in the body from a part boundary, lines add one part for each group
/// of non-blank lines that a blank line closes, provided each such group holds
/// a lyric line; after a blank line no part is left open.
pub proof fn parts_follow_blank_lines(m: ParserModel, ls: Seq<Seq<char>>)
    requires
        m.state == ParserState::Body,
        !part_present(m.part),
        closed_groups_have_lyrics(ls),
    ensures
        run(m, ls).state == ParserState::Body,
        run(m, ls).song.parts.len() == m.song.parts.len() + closed_groups(ls),
        ls.len() == 0 || is_blank(ls.last()) ==> !part_present(run(m, ls).part),
        open_group_has_lyrics(ls) ==> part_present(run(m, ls).part),
    decreases ls.len(),
{
    if ls.len() > 0 {
        let rest = ls.drop_last();
        parts_follow_blank_lines(m, rest);
        if rest.len() > 0 {
            assert(rest.last() == ls[ls.len() - 2]);
        }
    }
}

/// The blank line read after the last line of the text closes the last part.
pub proof fn end_of_text_closes_last_part(s: Seq<char>)
    ensures
        ({
            let m = run(initial(), lines_of(s));
            m.state == ParserState::Body && part_present(m.part) ==> parse_song(s).parts
                == m.song.parts.push(
                PartModel { name: m.part.name, lines: with_pending(m.part.lines, m.pending) },
            )
        }),
{
    let ls = lines_of(s).push(Seq::empty());
    assert(ls.drop_last() =~= lines_of(s));
    let m = run(initial(), lines_of(s));
    assert(is_blank(Seq::<char>::empty()));
}

/// Two chord lines in a row, in a part that has a name or a line, followed
/// by a blank line: each set of chords becomes a line of chords alone, in the
/// order of the chord lines, at the end of the part that the blank line
/// closes (after the chords that were pending before them, if any).
pub proof fn chord_lines_in_a_row(
    m: ParserModel,
    first: Seq<char>,
    second: Seq<char>,
    blank_line: Seq<char>,
)
    requires
        m.state == ParserState::Body,
        part_present(m.part),
        !is_blank(first),
        !is_blank(second),
        chord_line(first) is Some,
        chord_line(second) is Some,
        is_blank(blank_line),
    ensures
        ({
            let after = step(step(step(m, first), second), blank_line);
            after.song.parts == m.song.parts.push(
                PartModel {
                    name: m.part.name,
                    lines: with_pending(m.part.lines, m.pending).push(
                        chord_only(chord_line(first)->0),
                    ).push(chord_only(chord_line(second)->0)),
                },
            )
        }),
{
    chord_line_not_blank(first);
    chord_line_not_blank(second);
}

/// A chord line followed by a lyric line, in a part that has a name or a
/// line: the lyric line takes the chords.
pub proof fn lyric_line_takes_chords(m: ParserModel, chords: Seq<char>, lyrics: Seq<char>)
    requires
        m.state == ParserState::Body,
        m.pending.len() == 0,
        part_present(m.part),
        !is_blank(chords),
        !is_blank(lyrics),
        chord_line(chords) is Some,
        chord_line(lyrics) is None,
    ensures
        ({
            let after = step(step(m, chords), lyrics);
            &&& after.part.lines == m.part.lines.push(
                LineModel { text: lyrics, chords: chord_line(chords)->0 },
            )
            &&& after.pending.len() == 0
        }),
{
}

/// Reads a song sheet line by line.
pub struct SongParser {
    song: Song,
    state: ParserState,
    last_chords: Vec<SongChord>,
    part: SongPart,
}

impl View for SongParser {
    type V = ParserModel;

    closed spec fn view(&self) -> ParserModel {
        ParserModel {
            state: self.state,
            song: self.song@,
            pending: chord_models(self.last_chords@),
            part: self.part@,
        }
    }
}

proof fn lemma_skip_white_at_most(l: Seq<char>, i: int, p: int)
    requires
        0 <= i <= p < l.len(),
        !is_white_space(l[p]),
    ensures
        i <= skip_white(l, i) <= p,
    decreases p - i,
{
    if is_white_space(l[i]) {
        lemma_skip_white_at_most(l, i + 1, p);
    }
}

proof fn lemma_last_separator(l: Seq<char>, j: int)
    requires
        j <= l.len(),
    ensures
        last_separator(l, j) == -1 || (is_separator_at(l, last_separator(l, j)) && last_separator(
            l,
            j,
        ) < j),
    decreases j,
{
    if j > 0 && !is_separator_at(l, j - 1) {
        lemma_last_separator(l, j - 1);
    }
}

/// The index where leading whitespace ends.
fn first_non_white(l: &[char]) -> (r: usize)
    ensures
        r == skip_white(l@, 0),
        r <= l@.len(),
{
    let mut a: usize = 0;
    while a < l.len() && is_white(l[a])
        invariant
            a <= l@.len(),
            skip_white(l@, a as int) == skip_white(l@, 0),
        decreases l@.len() - a,
    {
        a = a + 1;
    }
    a
}

/// The key and value of a metadata line.
pub fn split_metadata(l: &[char]) -> (r: Option<(String, String)>)
    ensures
        match r {
            None => metadata_of(l@) is None,
            Some(kv) => metadata_of(l@) == Some((kv.0@, kv.1@)),
        },
{
    let len = l.len();
    let mut j = len;
    while j > 0 && !(j < len && l[j - 1] == ':' && l[j] == ' ')
        invariant
            j <= len == l@.len(),
            last_separator(l@, j as int) == last_separator(l@, len as int),
        decreases j,
    {
        j = j - 1;
    }
    proof {
        lemma_last_separator(l@, j as int);
    }
    if j == 0 {
        return None;
    }
    let p = j - 1;
    let a = first_non_white(l);
    proof {
        lemma_skip_white_at_most(l@, 0, p as int);
    }
    Some((string_of(l, a, p), string_of(l, p + 2, len)))
}

/// The name in a part header.
pub fn split_header(l: &[char]) -> (r: Option<String>)
    ensures
        match r {
            None => header_of(l@) is None,
            Some(name) => header_of(l@) == Some(name@),
        },
{
    let len = l.len();
    if len == 0 || l[len - 1] != ':' {
        return None;
    }
    let a = first_non_white(l);
    proof {
        lemma_skip_white_at_most(l@, 0, len - 1);
    }
    Some(string_of(l, a, len - 1))
}

impl SongParser {
    /// A parser before the first line.
    pub fn new() -> (r: SongParser)
        ensures
            r@ == initial(),
    {
        let r = SongParser {
            song: Song { title: String::new(), metadata: Vec::new(), parts: Vec::new() },
            state: ParserState::Start,
            last_chords: Vec::new(),
            part: SongPart { name: String::new(), lines: Vec::new() },
        };
        proof {
            assert(pair_views(r.song.metadata@) =~= Seq::empty());
            assert(metadata_map(pair_views(r.song.metadata@)) =~= Map::empty());
            assert(part_models(r.song.parts@) =~= Seq::empty());
            assert(line_models(r.part.lines@) =~= Seq::empty());
            assert(chord_models(r.last_chords@) =~= Seq::empty());
        }
        r
    }

    /// Reads `line` as a metadata line `key: value`, if it is one, into the
    /// song's metadata, where it replaces an earlier value of the same key.
    pub fn parse_metadata(&mut self, line: &[char]) -> (r: bool)
        ensures
            r == (metadata_of(line@) is Some),
            final(self)@ == match metadata_of(line@) {
                Some(kv) => ParserModel {
                    song: SongModel {
                        metadata: old(self)@.song.metadata.insert(kv.0, kv.1),
                        ..old(self)@.song
                    },
                    ..old(self)@
                },
                None => old(self)@,
            },
    {
        match split_metadata(line) {
            None => false,
            Some(kv) => {
                let (key, value) = kv;
                let ghost pv = pair_views(self.song.metadata@);
                let ghost entry = (key@, value@);
                match find_last_key(&self.song.metadata, &key) {
                    Some(k) => {
                        proof {
                            lemma_metadata_update(pv, k as int, key@, value@);
                        }
                        self.song.metadata.set(k, (key, value));
                        assert(pair_views(self.song.metadata@) =~= pv.update(k as int, entry));
                    },
                    None => {
                        self.song.metadata.push((key, value));
                        assert(pair_views(self.song.metadata@) =~= pv.push(entry));
                        assert(pv.push(entry).drop_last() =~= pv);
                    },
                }
                true
            },
        }
    }

    /// Reads a line of the body that is not blank: a part header while the
    /// part has neither name nor line, else a chord line or a lyric line.
    pub fn parse_part(&mut self, line: &[char])
        ensures
            final(self)@ == body_line(old(self)@, line@),
    {
        let ghost m = self@;
        if self.part.is_empty() {
            if let Some(name) = split_header(line) {
                self.part.name = name;
                assert(self@.part.lines =~= Seq::<LineModel>::empty());
                assert(self@ == body_line(m, line@));
                return;
            }
        }
        match parse_chords(line) {
            Some(chords) => {
                let mut prev = chords;
                std::mem::swap(&mut self.last_chords, &mut prev);
                if prev.len() > 0 {
                    let ghost lines = self.part.lines@;
                    let l = SongLine { text: String::new(), chords: prev };
                    self.part.lines.push(l);
                    assert(line_models(self.part.lines@) =~= line_models(lines).push(l@));
                    assert(l@ == chord_only(m.pending));
                }
            },
            None => {
                let mut prev: Vec<SongChord> = Vec::new();
                std::mem::swap(&mut self.last_chords, &mut prev);
                let ghost lines = self.part.lines@;
                let l = SongLine { text: string_of(line, 0, line.len()), chords: prev };
                self.part.lines.push(l);
                assert(line@.subrange(0, line@.len() as int) =~= line@);
                assert(line_models(self.part.lines@) =~= line_models(lines).push(l@));
                assert(chord_models(self.last_chords@) =~= Seq::<ChordModel>::empty());
            },
        }
    }

    /// Closes the part being read at a blank line, if it has a name or a line.
    pub fn close_part(&mut self)
        ensures
            final(self)@ == close_part(old(self)@),
    {
        if self.part.is_empty() {
            return;
        }
        let ghost m = self@;
        if self.last_chords.len() > 0 {
            let mut prev: Vec<SongChord> = Vec::new();
            std::mem::swap(&mut self.last_chords, &mut prev);
            let ghost lines = self.part.lines@;
            let l = SongLine { text: String::new(), chords: prev };
            self.part.lines.push(l);
            assert(line_models(self.part.lines@) =~= line_models(lines).push(l@));
            assert(chord_models(self.last_chords@) =~= Seq::<ChordModel>::empty());
        }
        assert(self.part@ == PartModel {
            name: m.part.name,
            lines: with_pending(m.part.lines, m.pending),
        });
        let mut part = SongPart { name: String::new(), lines: Vec::new() };
        std::mem::swap(&mut self.part, &mut part);
        let ghost parts = self.song.parts@;
        self.song.parts.push(part);
        assert(part_models(self.song.parts@) =~= part_models(parts).push(part@));
        assert(line_models(self.part.lines@) =~= Seq::<LineModel>::empty());
        assert(chord_models(self.last_chords@) =~= Seq::<ChordModel>::empty());
        assert(self@ == close_part(m));
    }

    /// Reads a line in the body: a blank line closes the part being read.
    fn parse_body(&mut self, line: &[char])
        ensures
            final(self)@ == body_step(old(self)@, line@),
    {
        if blank(line) {
            self.close_part();
        } else {
            self.parse_part(line);
        }
    }

    /// Reads one line of a song sheet.
    pub fn parse_line(&mut self, line: &[char])
        ensures
            final(self)@ == step(old(self)@, line@),
    {
        let is_blank_line = blank(line);
        match self.state {
            ParserState::Start => {
                if is_blank_line {
                    return;
                }
                self.song.title = trim_chars(line);
                self.state = ParserState::Definition;
            },
            ParserState::Definition => {
                if is_blank_line {
                    return;
                }
                if !self.parse_metadata(line) {
                    self.state = ParserState::Body;
                    self.parse_body(line);
                }
            },
            ParserState::Body => {
                self.parse_body(line);
            },
        }
    }

    /// The song that `content` holds. Never fails: a text without a title
    /// gives a song with an empty title and nothing else.
    pub fn parse(content: &str) -> (r: Song)
        ensures
            r@ == parse_song(content@),
    {
        let mut parser = SongParser::new();
        let chars = chars_of(content);
        let lines = split_lines(chars.as_slice());
        let ghost ls = views(lines@);
        let mut i: usize = 0;
        while i < lines.len()
            invariant
                i <= lines@.len(),
                ls == views(lines@),
                ls == lines_of(content@),
                parser@ == run(initial(), ls.subrange(0, i as int)),
            decreases lines@.len() - i,
        {
            parser.parse_line(lines[i].as_slice());
            assert(ls.subrange(0, i + 1).drop_last() =~= ls.subrange(0, i as int));
            i = i + 1;
        }
        assert(ls.subrange(0, i as int) =~= ls);
        let last: Vec<char> = Vec::new();
        parser.parse_line(last.as_slice());
        assert(ls.push(last@).drop_last() =~= ls);
        assert(last@ =~= Seq::<char>::empty());
        parser.song
    }
}

} // verus!
