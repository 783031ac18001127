//! The song tree: a song owns its parts, a part its lines, a line its chords.

use vstd::prelude::*;

verus! {

/// What a chord is: its name and the character offset in its line's text
/// where it sounds.
pub struct ChordModel {
    pub name: Seq<char>,
    pub pos: nat,
}

/// What a line is: its text (empty for a line of chords alone) and its chords.
pub struct LineModel {
    pub text: Seq<char>,
    pub chords: Seq<ChordModel>,
}

/// What a part is: its name (empty before any part header) and its lines.
pub struct PartModel {
    pub name: Seq<char>,
    pub lines: Seq<LineModel>,
}

/// What a song is: its title, its metadata and its parts.
pub struct SongModel {
    pub title: Seq<char>,
    pub metadata: Map<Seq<char>, Seq<char>>,
    pub parts: Seq<PartModel>,
}

/// A chord name and the character offset where it sounds. The offset may lie
/// past the end of the line's text.
#[derive(Debug)]
pub struct SongChord {
    pub name: String,
    pub pos: usize,
}

/// A lyric line with its chords, or a line of chords alone when `text` is empty.
#[derive(Debug)]
pub struct SongLine {
    pub text: String,
    pub chords: Vec<SongChord>,
}

/// A named section of a song.
#[derive(Debug)]
pub struct SongPart {
    pub name: String,
    pub lines: Vec<SongLine>,
}

/// A parsed song. `metadata` holds key and value pairs; where a key occurs
/// twice the later pair counts.
#[derive(Debug)]
pub struct Song {
    pub title: String,
    pub metadata: Vec<(String, String)>,
    pub parts: Vec<SongPart>,
}

impl View for SongChord {
    type V = ChordModel;

    open spec fn view(&self) -> ChordModel {
        ChordModel { name: self.name@, pos: self.pos as nat }
    }
}

pub open spec fn chord_models(cs: Seq<SongChord>) -> Seq<ChordModel> {
    cs.map_values(|c: SongChord| c@)
}

impl View for SongLine {
    type V = LineModel;

    open spec fn view(&self) -> LineModel {
        LineModel { text: self.text@, chords: chord_models(self.chords@) }
    }
}

pub open spec fn line_models(ls: Seq<SongLine>) -> Seq<LineModel> {
    ls.map_values(|l: SongLine| l@)
}

impl View for SongPart {
    type V = PartModel;

    open spec fn view(&self) -> PartModel {
        PartModel { name: self.name@, lines: line_models(self.lines@) }
    }
}

pub open spec fn part_models(ps: Seq<SongPart>) -> Seq<PartModel> {
    ps.map_values(|p: SongPart| p@)
}

/// The metadata map of a sequence of pairs, later pairs overriding earlier ones.
pub open spec fn metadata_map(m: Seq<(Seq<char>, Seq<char>)>) -> Map<Seq<char>, Seq<char>>
    decreases m.len(),
{
    if m.len() == 0 {
        Map::empty()
    } else {
        metadata_map(m.drop_last()).insert(m.last().0, m.last().1)
    }
}

pub open spec fn pair_views(m: Seq<(String, String)>) -> Seq<(Seq<char>, Seq<char>)> {
    m.map_values(|p: (String, String)| (p.0@, p.1@))
}

impl View for Song {
    type V = SongModel;

    open spec fn view(&self) -> SongModel {
        SongModel {
            title: self.title@,
            metadata: metadata_map(pair_views(self.metadata@)),
            parts: part_models(self.parts@),
        }
    }
}

/// A part is worth keeping once it has a name or a line.
pub open spec fn part_present(p: PartModel) -> bool {
    p.name.len() > 0 || p.lines.len() > 0
}

impl SongChord {
    pub fn new(name: String, pos: usize) -> (r: SongChord)
        ensures
            r.name == name,
            r.pos == pos,
    {
        SongChord { name, pos }
    }
}

impl SongLine {
    pub fn new(text: String, chords: Vec<SongChord>) -> (r: SongLine)
        ensures
            r.text == text,
            r.chords == chords,
    {
        SongLine { text, chords }
    }
}

impl SongPart {
    pub fn new(name: String, lines: Vec<SongLine>) -> (r: SongPart)
        ensures
            r.name == name,
            r.lines == lines,
    {
        SongPart { name, lines }
    }

    /// No name and no lines: nothing to keep.
    pub fn is_empty(&self) -> (r: bool)
        ensures
            r == !part_present(self@),
    {
        self.name.as_str().is_empty() && self.lines.len() == 0
    }
}

/// The pair at `k` is the last one with key `key`.
pub open spec fn last_with_key(m: Seq<(Seq<char>, Seq<char>)>, key: Seq<char>, k: int) -> bool {
    &&& 0 <= k < m.len()
    &&& m[k].0 == key
    &&& forall|j: int| k < j < m.len() ==> (#[trigger] m[j]).0 != key
}

pub proof fn lemma_metadata_last(m: Seq<(Seq<char>, Seq<char>)>, key: Seq<char>, k: int)
    requires
        last_with_key(m, key, k),
    ensures
        metadata_map(m).contains_key(key),
        metadata_map(m)[key] == m[k].1,
    decreases m.len(),
{
    if k < m.len() - 1 {
        assert(m.last() == m[m.len() - 1]);
        lemma_metadata_last(m.drop_last(), key, k);
    }
}

pub proof fn lemma_metadata_absent(m: Seq<(Seq<char>, Seq<char>)>, key: Seq<char>)
    requires
        forall|j: int| 0 <= j < m.len() ==> (#[trigger] m[j]).0 != key,
    ensures
        !metadata_map(m).contains_key(key),
    decreases m.len(),
{
    if m.len() > 0 {
        assert(m.last() == m[m.len() - 1]);
        lemma_metadata_absent(m.drop_last(), key);
    }
}

/// Replacing the last pair with a key replaces that key's value.
pub proof fn lemma_metadata_update(
    m: Seq<(Seq<char>, Seq<char>)>,
    k: int,
    key: Seq<char>,
    value: Seq<char>,
)
    requires
        last_with_key(m, key, k),
    ensures
        metadata_map(m.update(k, (key, value))) == metadata_map(m).insert(key, value),
    decreases m.len(),
{
    let m2 = m.update(k, (key, value));
    if k == m.len() - 1 {
        assert(m2.drop_last() =~= m.drop_last());
        assert(metadata_map(m2) =~= metadata_map(m).insert(key, value));
    } else {
        assert(m.last() == m[m.len() - 1]);
        assert(m2.drop_last() =~= m.drop_last().update(k, (key, value)));
        lemma_metadata_update(m.drop_last(), k, key, value);
        assert(metadata_map(m2) =~= metadata_map(m).insert(key, value));
    }
}

/// The index of the last pair of `m` whose key is `key`.
pub fn find_last_key(m: &Vec<(String, String)>, key: &String) -> (r: Option<usize>)
    ensures
        match r {
            Some(k) => last_with_key(pair_views(m@), key@, k as int),
            None => forall|j: int|
                0 <= j < m@.len() ==> (#[trigger] pair_views(m@)[j]).0 != key@,
        },
{
    let mut i = m.len();
    while i > 0
        invariant
            i <= m@.len(),
            forall|j: int| i <= j < m@.len() ==> (#[trigger] pair_views(m@)[j]).0 != key@,
        decreases i,
    {
        i = i - 1;
        if m[i].0 == *key {
            return Some(i);
        }
    }
    None
}

} // verus!
