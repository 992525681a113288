use vstd::prelude::*;

use crate::paths::{file_name, file_name_start};
use crate::text::{chars_of, string_of_range, trim};
use crate::track::{is_rule, parse_line_spec, track_from_range, Track, TrackView};

verus! {

/// The lines of `s`, split at each line feed. A carriage return before a line
/// feed stays in its line, where trimming removes it.
pub open spec fn lines_of(s: Seq<char>) -> Seq<Seq<char>>
    decreases s.len(),
{
    if s.len() == 0 {
        seq![Seq::<char>::empty()]
    } else {
        let p = lines_of(s.drop_last());
        if s.last() == '\n' {
            p.push(Seq::<char>::empty())
        } else {
            p.update(p.len() - 1, p.last().push(s.last()))
        }
    }
}

/// The tracks that `lines` yield, read in order, numbered from 1 by parse order.
pub open spec fn collect(lines: Seq<Seq<char>>) -> Seq<TrackView>
    decreases lines.len(),
{
    if lines.len() == 0 {
        Seq::empty()
    } else {
        let prev = collect(lines.drop_last());
        match parse_line_spec(lines.last(), prev.len() + 1) {
            Some(t) => prev.push(t),
            None => prev,
        }
    }
}

/// The tracks of a raw playlist text.
pub open spec fn parse_text(s: Seq<char>) -> Seq<TrackView> {
    collect(lines_of(s))
}

pub open spec fn tracks_view(ts: Seq<Track>) -> Seq<TrackView> {
    ts.map_values(|t: Track| t@)
}

pub proof fn lemma_collect_len(lines: Seq<Seq<char>>)
    ensures
        collect(lines).len() <= lines.len(),
    decreases lines.len(),
{
    if lines.len() > 0 {
        lemma_collect_len(lines.drop_last());
    }
}

proof fn lemma_collect_positions(lines: Seq<Seq<char>>)
    ensures
        forall|i: int| 0 <= i < collect(lines).len() ==> #[trigger] collect(lines)[i].position == i + 1,
        forall|i: int| 0 <= i < collect(lines).len() ==> (#[trigger] collect(lines)[i]).title.len() > 0,
    decreases lines.len(),
{
    if lines.len() > 0 {
        lemma_collect_positions(lines.drop_last());
    }
}

/// Track positions are 1, 2, 3, ... in parse order, whatever the input, and
/// no track has an empty title.
pub proof fn lemma_positions_from_one(s: Seq<char>)
    ensures
        forall|i: int| 0 <= i < parse_text(s).len() ==> #[trigger] parse_text(s)[i].position == i + 1,
        forall|i: int| 0 <= i < parse_text(s).len() ==> (#[trigger] parse_text(s)[i]).title.len() > 0,
{
    lemma_collect_positions(lines_of(s));
}

/// Number of lines that hold more than whitespace.
pub open spec fn count_nonblank(lines: Seq<Seq<char>>) -> nat
    decreases lines.len(),
{
    if lines.len() == 0 {
        0
    } else {
        count_nonblank(lines.drop_last()) + if trim(lines.last()).len() > 0 {
            1nat
        } else {
            0nat
        }
    }
}

/// A playlist text with no separator lines.
pub open spec fn well_formed(s: Seq<char>) -> bool {
    forall|i: int| 0 <= i < lines_of(s).len() ==> !is_rule(trim(#[trigger] lines_of(s)[i]))
}

proof fn lemma_collect_count(lines: Seq<Seq<char>>)
    requires
        forall|i: int| 0 <= i < lines.len() ==> !is_rule(trim(#[trigger] lines[i])),
    ensures
        collect(lines).len() == count_nonblank(lines),
    decreases lines.len(),
{
    if lines.len() > 0 {
        let p = lines.drop_last();
        assert forall|i: int| 0 <= i < p.len() implies !is_rule(trim(#[trigger] p[i])) by {
            assert(p[i] == lines[i]);
        }
        lemma_collect_count(p);
        assert(!is_rule(trim(lines[lines.len() - 1])));
    }
}

/// In a well-formed playlist text every non-blank line is one track.
pub proof fn lemma_track_per_nonblank_line(s: Seq<char>)
    requires
        well_formed(s),
    ensures
        parse_text(s).len() == count_nonblank(lines_of(s)),
{
    lemma_collect_count(lines_of(s));
}

/// Source-file facts shown in the info block.
#[derive(Debug, Clone)]
pub struct FileInfo {
    pub name: String,
    pub size: u64,
    pub modified: String,
}

/// A parsed playlist: where it came from and its tracks in file order.
#[derive(Debug, Clone)]
pub struct Playlist {
    pub path: String,
    pub info: FileInfo,
    pub tracks: Vec<Track>,
}

/// Parses the whole text of a playlist file into its tracks.
pub fn parse_tracks(contents: &str) -> (r: Vec<Track>)
    ensures
        tracks_view(r@) == parse_text(contents@),
{
    let v = chars_of(contents);
    let n = v.len();
    let mut tracks: Vec<Track> = Vec::new();
    let mut ls: usize = 0;
    let mut i: usize = 0;
    let ghost mut done: Seq<Seq<char>> = Seq::empty();
    assert(v@.subrange(0, 0) =~= Seq::<char>::empty());
    assert(lines_of(v@.take(0)) =~= done.push(v@.subrange(0, 0)));
    while i < n
        invariant
            n == v@.len(),
            v@ == contents@,
            ls <= i <= n,
            done.len() <= ls,
            lines_of(v@.take(i as int)) == done.push(v@.subrange(ls as int, i as int)),
            tracks_view(tracks@) == collect(done),
        decreases n - i,
    {
        proof {
            let s = v@.take(i + 1);
            assert(s.drop_last() =~= v@.take(i as int));
            assert(s.last() == v@[i as int]);
        }
        if v[i] == '\n' {
            proof {
                lemma_collect_len(done);
            }
            let t = track_from_range(&v, ls, i, tracks.len() + 1);
            let ghost line = v@.subrange(ls as int, i as int);
            let ghost old_tracks = tracks@;
            match t {
                Some(t) => {
                    tracks.push(t);
                },
                None => {},
            }
            proof {
                let nd = done.push(line);
                assert(nd.drop_last() =~= done);
                assert(tracks_view(tracks@) =~= collect(nd));
                done = nd;
            }
            ls = i + 1;
            i = i + 1;
            assert(v@.subrange(ls as int, i as int) =~= Seq::<char>::empty());
            assert(lines_of(v@.take(i as int)) =~= done.push(v@.subrange(ls as int, i as int)));
        } else {
            assert(v@.subrange(ls as int, i as int).push(v@[i as int]) =~= v@.subrange(
                ls as int,
                i + 1,
            ));
            i = i + 1;
            assert(lines_of(v@.take(i as int)) =~= done.push(v@.subrange(ls as int, i as int)));
        }
    }
    assert(v@.take(n as int) =~= v@);
    let ghost line = v@.subrange(ls as int, n as int);
    let ghost all = done.push(line);
    assert(all.drop_last() =~= done);
    if ls < n {
        proof {
            lemma_collect_len(done);
        }
        let t = track_from_range(&v, ls, n, tracks.len() + 1);
        match t {
            Some(t) => {
                tracks.push(t);
            },
            None => {},
        }
        assert(tracks_view(tracks@) =~= collect(all));
    } else {
        assert(line =~= Seq::<char>::empty());
        assert(tracks_view(tracks@) =~= collect(all));
    }
    tracks
}

impl Playlist {
    /// Builds the playlist of the file at `path` from its text and metadata.
    pub fn from_contents(path: String, contents: &str, size: u64, modified: String) -> (r:
        Playlist)
        ensures
            r.path@ == path@,
            r.info.name@ == file_name(path@),
            r.info.size == size,
            r.info.modified@ == modified@,
            tracks_view(r.tracks@) == parse_text(contents@),
    {
        let pv = chars_of(path.as_str());
        let start = file_name_start(&pv);
        let name = string_of_range(&pv, start, pv.len());
        let tracks = parse_tracks(contents);
        Playlist { path, info: FileInfo { name, size, modified }, tracks }
    }

    pub fn len(&self) -> (r: usize)
        ensures
            r == self.tracks@.len(),
    {
        self.tracks.len()
    }
}

} // verus!
