//! Rendering a song as HTML: each chord line above its lyrics, in a `<pre>`
//! block.

use vstd::prelude::*;
use crate::song::{
    ChordModel, LineModel, PartModel, Song, SongLine, SongPart, line_models, pair_views, part_models,
};
use crate::text::{chars_of, push_char};

verus! {

/// `n` spaces.
pub open spec fn spaces(n: int) -> Seq<char> {
    Seq::new(if n > 0 { n as nat } else { 0 }, |_i: int| ' ')
}

/// The chord names set out along a row, each at its offset where the names
/// before it leave room, `last` being where the row so far ends.
pub open spec fn chord_row(cs: Seq<ChordModel>, last: int) -> Seq<char>
    decreases cs.len(),
{
    if cs.len() == 0 {
        Seq::empty()
    } else {
        spaces(cs[0].pos - last) + cs[0].name + chord_row(cs.skip(1), (cs[0].pos + cs[0].name.len()) as int)
    }
}

/// The HTML of a line: its chords in bold on a row of their own, then its text.
pub open spec fn line_html(l: LineModel) -> Seq<char> {
    let row = if l.chords.len() > 0 {
        "<b>"@ + chord_row(l.chords, 0) + "</b>\n"@
    } else {
        Seq::empty()
    };
    let text = if l.text.len() > 0 {
        l.text.push('\n')
    } else {
        Seq::empty()
    };
    row + text
}

pub open spec fn lines_html(ls: Seq<LineModel>) -> Seq<char>
    decreases ls.len(),
{
    if ls.len() == 0 {
        Seq::empty()
    } else {
        lines_html(ls.drop_last()) + line_html(ls.last())
    }
}

/// The HTML of a part: its name in italics, then its lines.
pub open spec fn part_html(p: PartModel) -> Seq<char> {
    "<em>"@ + p.name + ":</em>\n"@ + lines_html(p.lines)
}

pub open spec fn metadata_html(m: Seq<(Seq<char>, Seq<char>)>) -> Seq<char>
    decreases m.len(),
{
    if m.len() == 0 {
        Seq::empty()
    } else {
        metadata_html(m.drop_last()) + m.last().0 + seq![':', ' '] + m.last().1 + seq!['\n']
    }
}

pub open spec fn parts_html(ps: Seq<PartModel>) -> Seq<char>
    decreases ps.len(),
{
    if ps.len() == 0 {
        Seq::empty()
    } else {
        parts_html(ps.drop_last()) + part_html(ps.last()) + seq!['\n', '\n']
    }
}

/// The HTML of a song: title, metadata in the order held, then the parts.
pub open spec fn song_html(
    title: Seq<char>,
    metadata: Seq<(Seq<char>, Seq<char>)>,
    parts: Seq<PartModel>,
) -> Seq<char> {
    "<pre>"@ + "<h1>"@ + title + "</h1>\n"@ + metadata_html(metadata) + seq!['\n', '\n']
        + parts_html(parts) + "</pre>"@
}

impl SongLine {
    /// The HTML of the line.
    pub fn to_html(&self) -> (r: String)
        ensures
            r@ == line_html(self@),
    {
        let mut out = String::new();
        let ghost cs = self@.chords;
        if self.chords.len() > 0 {
            out.append("<b>");
            let ghost start = out@;
            let mut last: usize = 0;
            let ghost mut last_at: int = 0;
            let mut k: usize = 0;
            assert(cs.skip(0) =~= cs);
            while k < self.chords.len()
                invariant
                    k <= self.chords@.len(),
                    cs == self@.chords,
                    0 <= last_at,
                    last as int == if last_at > usize::MAX { usize::MAX as int } else { last_at },
                    out@ + chord_row(cs.skip(k as int), last_at) == start + chord_row(cs, 0),
                decreases self.chords@.len() - k,
            {
                let ghost before = out@;
                let c = &self.chords[k];
                assert(cs.skip(k as int)[0] == c@);
                let mut pad: usize = 0;
                if c.pos > last {
                    while pad < c.pos - last
                        invariant
                            last < c.pos,
                            pad <= c.pos - last,
                            out@ == before + spaces(pad as int),
                        decreases c.pos - last - pad,
                    {
                        push_char(&mut out, ' ');
                        pad = pad + 1;
                        assert(out@ =~= before + spaces(pad as int));
                    }
                }
                assert(out@ =~= before + spaces(c.pos - last_at));
                out.append(c.name.as_str());
                let n = chars_of(c.name.as_str()).len();
                assert(cs.skip(k as int).skip(1) =~= cs.skip(k + 1));
                assert(before + (spaces(c.pos - last_at) + c.name@ + chord_row(
                    cs.skip(k + 1),
                    c.pos + c.name@.len(),
                )) =~= out@ + chord_row(cs.skip(k + 1), c.pos + c.name@.len()));
                last = if c.pos <= usize::MAX - n {
                    c.pos + n
                } else {
                    usize::MAX
                };
                proof {
                    last_at = c.pos + c.name@.len();
                }
                k = k + 1;
            }
            assert(cs.skip(k as int) =~= Seq::<ChordModel>::empty());
            out.append("</b>\n");
            assert(out@ =~= "<b>"@ + chord_row(cs, 0) + "</b>\n"@);
        }
        let ghost row = out@;
        if self.text.as_str().is_empty() {
            assert(out@ =~= row + Seq::<char>::empty());
        } else {
            out.append(self.text.as_str());
            push_char(&mut out, '\n');
            assert(out@ =~= row + self.text@.push('\n'));
        }
        assert(row == if cs.len() > 0 {
            "<b>"@ + chord_row(cs, 0) + "</b>\n"@
        } else {
            Seq::empty()
        });
        out
    }
}

impl SongPart {
    /// The HTML of the part.
    pub fn to_html(&self) -> (r: String)
        ensures
            r@ == part_html(self@),
    {
        let mut out = String::new();
        out.append("<em>");
        out.append(self.name.as_str());
        out.append(":</em>\n");
        let ghost head = out@;
        let mut i: usize = 0;
        while i < self.lines.len()
            invariant
                i <= self.lines@.len(),
                out@ == head + lines_html(line_models(self.lines@.subrange(0, i as int))),
            decreases self.lines@.len() - i,
        {
            let s = self.lines[i].to_html();
            out.append(s.as_str());
            proof {
                let done = line_models(self.lines@.subrange(0, i + 1));
                assert(done.drop_last() =~= line_models(self.lines@.subrange(0, i as int)));
                assert(done.last() == self.lines@[i as int]@);
            }
            i = i + 1;
        }
        assert(self.lines@.subrange(0, i as int) =~= self.lines@);
        assert(head =~= "<em>"@ + self.name@ + ":</em>\n"@);
        out
    }
}

impl Song {
    /// The HTML of the song.
    pub fn to_html(&self) -> (r: String)
        ensures
            r@ == song_html(self.title@, pair_views(self.metadata@), part_models(self.parts@)),
    {
        let mut out = String::new();
        out.append("<pre>");
        out.append("<h1>");
        out.append(self.title.as_str());
        out.append("</h1>\n");
        let ghost head = out@;
        let ghost pv = pair_views(self.metadata@);
        let mut i: usize = 0;
        while i < self.metadata.len()
            invariant
                i <= self.metadata@.len(),
                pv == pair_views(self.metadata@),
                out@ == head + metadata_html(pv.subrange(0, i as int)),
            decreases self.metadata@.len() - i,
        {
            out.append(self.metadata[i].0.as_str());
            push_char(&mut out, ':');
            push_char(&mut out, ' ');
            out.append(self.metadata[i].1.as_str());
            push_char(&mut out, '\n');
            proof {
                let done = pv.subrange(0, i + 1);
                assert(done.drop_last() =~= pv.subrange(0, i as int));
                assert(out@ =~= head + metadata_html(done));
            }
            i = i + 1;
        }
        assert(pv.subrange(0, i as int) =~= pv);
        push_char(&mut out, '\n');
        push_char(&mut out, '\n');
        let ghost mid = out@;
        let mut j: usize = 0;
        while j < self.parts.len()
            invariant
                j <= self.parts@.len(),
                out@ == mid + parts_html(part_models(self.parts@.subrange(0, j as int))),
            decreases self.parts@.len() - j,
        {
            let s = self.parts[j].to_html();
            out.append(s.as_str());
            push_char(&mut out, '\n');
            push_char(&mut out, '\n');
            proof {
                let done = part_models(self.parts@.subrange(0, j + 1));
                assert(done.drop_last() =~= part_models(self.parts@.subrange(0, j as int)));
                assert(done.last() == self.parts@[j as int]@);
                assert(out@ =~= mid + parts_html(done));
            }
            j = j + 1;
        }
        assert(self.parts@.subrange(0, j as int) =~= self.parts@);
        out.append("</pre>");
        assert(out@ =~= song_html(self.title@, pv, part_models(self.parts@)));
        out
    }
}

} // verus!
