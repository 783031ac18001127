//! Typesetting a song as LaTeX song macros.
//!
//! A line's chords are inserted into its text from the rightmost offset to the
//! leftmost, so that inserting one chord mark never shifts the offsets of the
//! chords still to be inserted.

use vstd::prelude::*;
use vstd::multiset::Multiset;
use crate::song::{
    ChordModel, LineModel, PartModel, Song, SongChord, SongLine, SongModel, SongPart, chord_models,
    find_last_key, lemma_metadata_absent, lemma_metadata_last, line_models, pair_views, part_models,
};
use crate::text::{append_chars, chars_of, push_char};

verus! {

broadcast use vstd::seq_lib::group_to_multiset_ensures;

/// The mark `\[name]` for a chord.
pub open spec fn chord_mark(name: Seq<char>) -> Seq<char> {
    seq!['\\', '['] + name + seq![']']
}

/// `s` padded with spaces up to length `n`.
pub open spec fn pad_to(s: Seq<char>, n: int) -> Seq<char> {
    if n > s.len() {
        s + Seq::new((n - s.len()) as nat, |_i: int| ' ')
    } else {
        s
    }
}

/// `w` inserted into `s` at index `i`.
pub open spec fn insert_at(s: Seq<char>, i: int, w: Seq<char>) -> Seq<char> {
    s.subrange(0, i) + w + s.subrange(i, s.len() as int)
}

/// The chord marks inserted into `s` one after the other, in the order given.
pub open spec fn insert_marks(s: Seq<char>, cs: Seq<ChordModel>) -> Seq<char>
    decreases cs.len(),
{
    if cs.len() == 0 {
        s
    } else {
        insert_marks(insert_at(s, cs[0].pos as int, chord_mark(cs[0].name)), cs.skip(1))
    }
}

/// Offsets from the largest to the smallest.
pub open spec fn descending(cs: Seq<ChordModel>) -> bool {
    forall|i: int, j: int| 0 <= i < j < cs.len() ==> cs[i].pos >= cs[j].pos
}

/// The LaTeX of a line whose chords stand in descending order of offset: the
/// text, padded with spaces up to the largest offset, with each chord's mark
/// inserted at its offset; a line without lyrics goes inside `\nolyrics{..}`.
pub open spec fn line_latex(l: LineModel) -> Seq<char> {
    if l.chords.len() == 0 {
        l.text.push('\n')
    } else {
        let body = insert_marks(pad_to(l.text, l.chords[0].pos as int), l.chords);
        if l.text.len() == 0 {
            "\\nolyrics{"@ + body + seq!['}', '\n']
        } else {
            body.push('\n')
        }
    }
}

/// `after` is `before` with its chords put in descending order of offset.
pub open spec fn sorted_for_latex(before: SongLine, after: SongLine) -> bool {
    &&& after.text == before.text
    &&& after.chords@.to_multiset() == before.chords@.to_multiset()
    &&& descending(chord_models(after.chords@))
}

spec fn desc_pos(s: Seq<SongChord>) -> bool {
    forall|i: int, j: int| 0 <= i < j < s.len() ==> s[i].pos >= s[j].pos
}

/// Puts the chords in descending order of offset.
pub fn sort_descending(v: &mut Vec<SongChord>)
    ensures
        final(v)@.to_multiset() == old(v)@.to_multiset(),
        final(v)@.len() == old(v)@.len(),
        descending(chord_models(final(v)@)),
{
    let ghost orig = v@;
    let mut rest: Vec<SongChord> = Vec::new();
    std::mem::swap(v, &mut rest);
    while rest.len() > 0
        invariant
            v@.to_multiset().add(rest@.to_multiset()) == orig.to_multiset(),
            desc_pos(v@),
        decreases rest@.len(),
    {
        let ghost rest_before = rest@;
        let c = rest.pop().unwrap();
        assert(rest_before =~= rest@.push(c));
        let mut j: usize = 0;
        while j < v.len() && v[j].pos >= c.pos
            invariant
                j <= v@.len(),
                forall|k: int| 0 <= k < j ==> v@[k].pos >= c.pos,
            decreases v@.len() - j,
        {
            j = j + 1;
        }
        let ghost v_before = v@;
        v.insert(j, c);
        proof {
            assert(v@ == v_before.insert(j as int, c));
            assert forall|a: int, b: int| 0 <= a < b < v@.len() implies v@[a].pos >= v@[b].pos by {
                if j < v_before.len() {
                    assert(v_before[j as int].pos < c.pos);
                }
                if a > j {
                    assert(v_before[a - 1].pos >= v_before[b - 1].pos);
                } else if a == j && b > j + 1 {
                    assert(v_before[j as int].pos >= v_before[b - 1].pos);
                } else if a < j && b > j {
                    assert(v_before[a].pos >= v_before[b - 1].pos);
                }
            }
            assert(v@.to_multiset() == v_before.to_multiset().insert(c));
        }
    }
    assert(rest@.to_multiset() =~= Multiset::empty());
    assert(v@.to_multiset() =~= orig.to_multiset());
    assert(v@.to_multiset().len() == v@.len());
    assert(orig.to_multiset().len() == orig.len());
    assert forall|a: int, b: int|
        0 <= a < b < chord_models(v@).len() implies chord_models(v@)[a].pos >= chord_models(
        v@,
    )[b].pos by {
        assert(v@[a].pos >= v@[b].pos);
    }
}

/// `s` with the mark of the chord `name` inserted at `pos`.
fn insert_mark(s: &Vec<char>, pos: usize, name: &String) -> (r: Vec<char>)
    requires
        pos <= s@.len(),
    ensures
        r@ == insert_at(s@, pos as int, chord_mark(name@)),
{
    let n = chars_of(name.as_str());
    let mut r: Vec<char> = Vec::new();
    let mut i: usize = 0;
    while i < pos
        invariant
            i <= pos <= s@.len(),
            r@ == s@.subrange(0, i as int),
        decreases pos - i,
    {
        r.push(s[i]);
        i = i + 1;
        assert(r@ =~= s@.subrange(0, i as int));
    }
    r.push('\\');
    r.push('[');
    let mut k: usize = 0;
    while k < n.len()
        invariant
            k <= n@.len(),
            n@ == name@,
            r@ == s@.subrange(0, pos as int) + seq!['\\', '['] + n@.subrange(0, k as int),
        decreases n@.len() - k,
    {
        r.push(n[k]);
        k = k + 1;
        assert(r@ =~= s@.subrange(0, pos as int) + seq!['\\', '['] + n@.subrange(0, k as int));
    }
    r.push(']');
    let ghost head = r@;
    assert(head =~= s@.subrange(0, pos as int) + chord_mark(name@));
    let mut i: usize = pos;
    while i < s.len()
        invariant
            pos <= i <= s@.len(),
            r@ == head + s@.subrange(pos as int, i as int),
        decreases s@.len() - i,
    {
        r.push(s[i]);
        i = i + 1;
        assert(r@ =~= head + s@.subrange(pos as int, i as int));
    }
    r
}

impl SongLine {
    /// The LaTeX of the line. Puts the line's chords in descending order of
    /// offset first, which is the order in which they are inserted.
    pub fn to_latex(&mut self) -> (r: String)
        ensures
            sorted_for_latex(*old(self), *final(self)),
            r@ == line_latex(final(self)@),
    {
        if self.chords.len() == 0 {
            let mut out = self.text.clone();
            push_char(&mut out, '\n');
            return out;
        }
        sort_descending(&mut self.chords);
        let ghost cs = chord_models(self.chords@);
        let mut out = chars_of(self.text.as_str());
        let text_len = out.len();
        let top = self.chords[0].pos;
        while out.len() < top
            invariant
                text_len == self.text@.len(),
                text_len <= out@.len(),
                out@.len() <= top || out@.len() == text_len,
                out@ == pad_to(self.text@, out@.len() as int),
            decreases top - out@.len(),
        {
            out.push(' ');
            assert(out@ =~= pad_to(self.text@, out@.len() as int));
        }
        assert(out@ == pad_to(self.text@, top as int));
        let ghost padded = out@;
        assert(cs.skip(0) =~= cs);
        let mut k: usize = 0;
        while k < self.chords.len()
            invariant
                k <= self.chords@.len(),
                cs == chord_models(self.chords@),
                descending(cs),
                cs.len() > 0,
                cs[0].pos == top,
                out@.len() >= top,
                insert_marks(out@, cs.skip(k as int)) == insert_marks(padded, cs),
            decreases self.chords@.len() - k,
        {
            assert(cs[k as int].pos <= cs[0].pos);
            out = insert_mark(&out, self.chords[k].pos, &self.chords[k].name);
            assert(cs.skip(k as int).skip(1) =~= cs.skip(k + 1));
            k = k + 1;
        }
        assert(cs.skip(k as int) =~= Seq::<ChordModel>::empty());
        let mut r = String::new();
        if text_len == 0 {
            r.append("\\nolyrics{");
            append_chars(&mut r, out.as_slice(), 0, out.len());
            push_char(&mut r, '}');
            push_char(&mut r, '\n');
        } else {
            append_chars(&mut r, out.as_slice(), 0, out.len());
            push_char(&mut r, '\n');
        }
        proof {
            assert(out@.subrange(0, out@.len() as int) =~= out@);
            assert(Seq::<char>::empty() + "\\nolyrics{"@ =~= "\\nolyrics{"@);
            assert(Seq::<char>::empty() + out@ =~= out@);
        }
        r
    }
}

/// The characters of `s` in lower case, as `str::to_lowercase` gives them.
pub uninterp spec fn lower_of(s: Seq<char>) -> Seq<char>;

/// Relies on `str::to_lowercase`: the lower-case form of a string depends on
/// its characters alone.
#[verifier::external_body]
fn lowercase(s: &str) -> (r: String)
    ensures
        r@ == lower_of(s@),
{
    s.to_lowercase()
}

/// How a part is typeset, by its lower-cased name.
#[derive(PartialEq, Eq, Structural, Clone, Copy, Debug)]
pub enum PartStyle {
    /// A chorus.
    Chorus,
    /// A verse numbered by the song macros.
    NumberedVerse,
    /// An unnumbered verse that shows the part's name.
    Named,
}

/// `verse ` followed by one or more digits.
pub open spec fn is_numbered_verse(s: Seq<char>) -> bool {
    &&& s.len() > 6
    &&& s.subrange(0, 6) == seq!['v', 'e', 'r', 's', 'e', ' ']
    &&& forall|i: int| 6 <= i < s.len() ==> '0' <= #[trigger] s[i] <= '9'
}

pub open spec fn style_of(lower: Seq<char>) -> PartStyle {
    if lower == seq!['c', 'h', 'o', 'r', 'u', 's'] {
        PartStyle::Chorus
    } else if is_numbered_verse(lower) {
        PartStyle::NumberedVerse
    } else {
        PartStyle::Named
    }
}

/// The style of a part whose lower-cased name is `lower`.
pub fn part_style(lower: &str) -> (r: PartStyle)
    ensures
        r == style_of(lower@),
{
    let s = chars_of(lower);
    if s.len() == 6 && s[0] == 'c' && s[1] == 'h' && s[2] == 'o' && s[3] == 'r' && s[4] == 'u'
        && s[5] == 's' {
        assert(s@ =~= seq!['c', 'h', 'o', 'r', 'u', 's']);
        return PartStyle::Chorus;
    }
    assert(s@ != seq!['c', 'h', 'o', 'r', 'u', 's']);
    if !(s.len() > 6 && s[0] == 'v' && s[1] == 'e' && s[2] == 'r' && s[3] == 's' && s[4] == 'e'
        && s[5] == ' ') {
        if s.len() > 6 {
            assert(s@.subrange(0, 6)[0] == s@[0]);
            assert(s@.subrange(0, 6)[5] == s@[5]);
            assert(s@.subrange(0, 6)[1] == s@[1]);
            assert(s@.subrange(0, 6)[2] == s@[2]);
            assert(s@.subrange(0, 6)[3] == s@[3]);
            assert(s@.subrange(0, 6)[4] == s@[4]);
        }
        return PartStyle::Named;
    }
    assert(s@.subrange(0, 6) =~= seq!['v', 'e', 'r', 's', 'e', ' ']);
    let mut i: usize = 6;
    while i < s.len()
        invariant
            6 <= i <= s@.len(),
            s@ == lower@,
            s@ != seq!['c', 'h', 'o', 'r', 'u', 's'],
            s@.subrange(0, 6) == seq!['v', 'e', 'r', 's', 'e', ' '],
            forall|k: int| 6 <= k < i ==> '0' <= #[trigger] s@[k] <= '9',
        decreases s@.len() - i,
    {
        let c = s[i];
        if !('0' <= c && c <= '9') {
            return PartStyle::Named;
        }
        i = i + 1;
    }
    PartStyle::NumberedVerse
}

/// What opens a part of the given style.
pub open spec fn part_head(style: PartStyle, name: Seq<char>) -> Seq<char> {
    match style {
        PartStyle::Chorus => "\\beginchorus\n"@,
        PartStyle::NumberedVerse => "\\beginverse\n"@,
        PartStyle::Named => "\\beginverse*\n"@ + "\t\\textbf{"@ + name + ":}\n"@,
    }
}

/// What closes a part of the given style.
pub open spec fn part_tail(style: PartStyle) -> Seq<char> {
    match style {
        PartStyle::Chorus => "\\endchorus\n"@,
        _ => "\\endverse\n"@,
    }
}

/// Each line's LaTeX after a tab, one line after the other.
pub open spec fn lines_latex(ls: Seq<LineModel>) -> Seq<char>
    decreases ls.len(),
{
    if ls.len() == 0 {
        Seq::empty()
    } else {
        lines_latex(ls.drop_last()) + seq!['\t'] + line_latex(ls.last())
    }
}

/// The LaTeX of a part, typeset in the given style.
pub open spec fn part_latex(style: PartStyle, p: PartModel) -> Seq<char> {
    part_head(style, p.name) + lines_latex(p.lines) + part_tail(style)
}

/// `after` is `before` with the chords of each line put in descending order.
pub open spec fn part_sorted_for_latex(before: SongPart, after: SongPart) -> bool {
    &&& after.name == before.name
    &&& after.lines@.len() == before.lines@.len()
    &&& forall|i: int|
        0 <= i < before.lines@.len() ==> sorted_for_latex(
            #[trigger] before.lines@[i],
            after.lines@[i],
        )
}

impl SongPart {
    /// The LaTeX of the part: a chorus, a numbered verse (`verse` and a
    /// number, in any case) or an unnumbered verse headed by the part's name.
    pub fn to_latex(&mut self) -> (r: String)
        ensures
            part_sorted_for_latex(*old(self), *final(self)),
            r@ == part_latex(style_of(lower_of(old(self).name@)), final(self)@),
    {
        let lower = lowercase(self.name.as_str());
        let style = part_style(lower.as_str());
        self.to_latex_styled(style)
    }

    /// The LaTeX of the part, typeset in `style`.
    pub fn to_latex_styled(&mut self, style: PartStyle) -> (r: String)
        ensures
            part_sorted_for_latex(*old(self), *final(self)),
            r@ == part_latex(style, final(self)@),
    {
        let mut out = String::new();
        match style {
            PartStyle::Chorus => {
                out.append("\\beginchorus\n");
            },
            PartStyle::NumberedVerse => {
                out.append("\\beginverse\n");
            },
            PartStyle::Named => {
                out.append("\\beginverse*\n");
                out.append("\t\\textbf{");
                out.append(self.name.as_str());
                out.append(":}\n");
            },
        }
        let ghost head = out@;
        assert(head == part_head(style, self.name@)) by {
            assert(Seq::<char>::empty() + "\\beginchorus\n"@ =~= "\\beginchorus\n"@);
            assert(Seq::<char>::empty() + "\\beginverse\n"@ =~= "\\beginverse\n"@);
            assert(Seq::<char>::empty() + "\\beginverse*\n"@ =~= "\\beginverse*\n"@);
        }
        let ghost orig = *self;
        let mut i: usize = 0;
        while i < self.lines.len()
            invariant
                i <= self.lines@.len() == orig.lines@.len(),
                self.name == orig.name,
                forall|k: int| 0 <= k < i ==> sorted_for_latex(#[trigger] orig.lines@[k], self.lines@[k]),
                forall|k: int| i <= k < self.lines@.len() ==> #[trigger] self.lines@[k] == orig.lines@[k],
                out@ == head + lines_latex(line_models(self.lines@.subrange(0, i as int))),
            decreases self.lines@.len() - i,
        {
            let ghost before = self.lines@;
            push_char(&mut out, '\t');
            let line_out = self.lines[i].to_latex();
            out.append(line_out.as_str());
            proof {
                let done = line_models(self.lines@.subrange(0, i + 1));
                assert(done.drop_last() =~= line_models(before.subrange(0, i as int)));
                assert(done.last() == self.lines@[i as int]@);
            }
            i = i + 1;
        }
        assert(self.lines@.subrange(0, i as int) =~= self.lines@);
        match style {
            PartStyle::Chorus => {
                out.append("\\endchorus\n");
            },
            _ => {
                out.append("\\endverse\n");
            },
        }
        out
    }
}

/// The metadata key whose value names the song's author.
pub open spec fn artist_key() -> Seq<char> {
    seq!['a', 'r', 't', 'i', 's', 't']
}

/// What opens a song: its title, and its artist where the metadata has one.
pub open spec fn song_head(s: SongModel) -> Seq<char> {
    let by = if s.metadata.contains_key(artist_key()) {
        "[by={"@ + s.metadata[artist_key()] + seq!['}']
    } else {
        Seq::empty()
    };
    "\\beginsong{"@ + s.title + seq!['}'] + by + seq!['\n', '\n']
}

/// Each part's LaTeX followed by a blank line, one part after the other.
pub open spec fn parts_latex(ps: Seq<PartModel>) -> Seq<char>
    decreases ps.len(),
{
    if ps.len() == 0 {
        Seq::empty()
    } else {
        parts_latex(ps.drop_last()) + part_latex(style_of(lower_of(ps.last().name)), ps.last())
            + seq!['\n']
    }
}

/// The LaTeX of a song.
pub open spec fn song_latex(s: SongModel) -> Seq<char> {
    song_head(s) + parts_latex(s.parts) + "\\endsong\n"@
}

impl Song {
    /// The LaTeX of the song. Puts the chords of each line in descending order
    /// of offset first.
    pub fn to_latex(&mut self) -> (r: String)
        ensures
            final(self).title == old(self).title,
            final(self).metadata == old(self).metadata,
            final(self).parts@.len() == old(self).parts@.len(),
            forall|i: int|
                0 <= i < old(self).parts@.len() ==> part_sorted_for_latex(
                    #[trigger] old(self).parts@[i],
                    final(self).parts@[i],
                ),
            r@ == song_latex(final(self)@),
    {
        let mut out = String::new();
        out.append("\\beginsong{");
        out.append(self.title.as_str());
        push_char(&mut out, '}');
        let key = String::from_str("artist");
        proof {
            reveal_strlit("artist");
            assert(key@ =~= artist_key());
        }
        let ghost pv = pair_views(self.metadata@);
        match find_last_key(&self.metadata, &key) {
            Some(k) => {
                proof {
                    lemma_metadata_last(pv, key@, k as int);
                }
                out.append("[by={");
                out.append(self.metadata[k].1.as_str());
                push_char(&mut out, '}');
            },
            None => {
                proof {
                    lemma_metadata_absent(pv, key@);
                }
            },
        }
        push_char(&mut out, '\n');
        push_char(&mut out, '\n');
        let ghost head = out@;
        assert(head =~= song_head(self@));
        let ghost orig = *self;
        let mut i: usize = 0;
        while i < self.parts.len()
            invariant
                i <= self.parts@.len() == orig.parts@.len(),
                self.title == orig.title,
                self.metadata == orig.metadata,
                forall|k: int|
                    0 <= k < i ==> part_sorted_for_latex(#[trigger] orig.parts@[k], self.parts@[k]),
                forall|k: int| i <= k < self.parts@.len() ==> #[trigger] self.parts@[k] == orig.parts@[k],
                out@ == head + parts_latex(part_models(self.parts@.subrange(0, i as int))),
            decreases self.parts@.len() - i,
        {
            let ghost before = self.parts@;
            let part_out = self.parts[i].to_latex();
            out.append(part_out.as_str());
            push_char(&mut out, '\n');
            proof {
                let done = part_models(self.parts@.subrange(0, i + 1));
                assert(done.drop_last() =~= part_models(before.subrange(0, i as int)));
                assert(done.last() == self.parts@[i as int]@);
                assert(self.parts@[i as int].name == before[i as int].name);
            }
            i = i + 1;
        }
        assert(self.parts@.subrange(0, i as int) =~= self.parts@);
        out.append("\\endsong\n");
        out
    }
}

} // verus!
