use vstd::prelude::*;

use crate::text::{is_ws_char, string_of_range, trim, trim_bounds};

verus! {

/// What a track is, as mathematical values.
pub struct TrackView {
    pub position: nat,
    pub title: Seq<char>,
    pub artist: Option<Seq<char>>,
    pub raw: Seq<char>,
}

/// One playlist entry.
///
/// `raw` is the trimmed source line, kept so that a line whose artist and
/// title cannot be told apart is still shown as it was written.
#[derive(Debug, Clone)]
pub struct Track {
    pub position: usize,
    pub title: String,
    pub artist: Option<String>,
    pub raw: String,
}

impl View for Track {
    type V = TrackView;

    open spec fn view(&self) -> TrackView {
        TrackView {
            position: self.position as nat,
            title: self.title@,
            artist: match self.artist {
                Some(a) => Some(a@),
                None => None,
            },
            raw: self.raw@,
        }
    }
}

pub open spec fn is_digit(c: char) -> bool {
    '0' <= c && c <= '9'
}

/// A separator line: nothing but `-` and `=` characters.
pub open spec fn is_rule(s: Seq<char>) -> bool {
    s.len() > 0 && forall|i: int| 0 <= i < s.len() ==> (s[i] == '-' || s[i] == '=')
}

/// End of the run of ASCII digits in `s` that starts at `i`.
pub open spec fn digit_run_end(s: Seq<char>, i: int) -> int
    decreases s.len() - i,
{
    if 0 <= i < s.len() && is_digit(s[i]) {
        digit_run_end(s, i + 1)
    } else {
        i
    }
}

/// Whether the artist/title delimiter `" - "` starts at `j` in `s`.
pub open spec fn sep_at(s: Seq<char>, j: int) -> bool {
    0 <= j && j + 3 <= s.len() && s[j] == ' ' && s[j + 1] == '-' && s[j + 2] == ' '
}

/// The first position at or after `i` where the delimiter starts.
pub open spec fn first_sep(s: Seq<char>, i: int) -> Option<int>
    decreases s.len() - i,
{
    if i < 0 || i + 3 > s.len() {
        None
    } else if sep_at(s, i) {
        Some(i)
    } else {
        first_sep(s, i + 1)
    }
}

/// A trimmed line with a leading embedded number (`12.` or `12)`) taken off.
/// The number is display text only: positions come from parse order.
pub open spec fn strip_number(t: Seq<char>) -> Seq<char> {
    let k = digit_run_end(t, 0);
    if 0 < k < t.len() && (t[k] == '.' || t[k] == ')') {
        trim(t.subrange(k + 1, t.len() as int))
    } else {
        t
    }
}

/// The track that one raw line yields at `position`, if it is a track at all.
pub open spec fn parse_line_spec(line: Seq<char>, position: nat) -> Option<TrackView> {
    let t = trim(line);
    if t.len() == 0 || is_rule(t) {
        None
    } else {
        let b = strip_number(t);
        let fallback = TrackView {
            position,
            title: if b.len() > 0 { b } else { t },
            artist: None,
            raw: t,
        };
        match first_sep(b, 0) {
            Some(j) => {
                let artist = trim(b.subrange(0, j));
                let title = trim(b.subrange(j + 3, b.len() as int));
                if artist.len() > 0 && title.len() > 0 {
                    Some(TrackView { position, title, artist: Some(artist), raw: t })
                } else {
                    Some(fallback)
                }
            },
            None => Some(fallback),
        }
    }
}

pub open spec fn opt_view(o: Option<Track>) -> Option<TrackView> {
    match o {
        Some(t) => Some(t@),
        None => None,
    }
}

fn is_digit_char(c: char) -> (r: bool)
    ensures
        r == is_digit(c),
{
    '0' <= c && c <= '9'
}

fn is_rule_range(v: &Vec<char>, lo: usize, hi: usize) -> (r: bool)
    requires
        lo <= hi <= v@.len(),
    ensures
        r == is_rule(v@.subrange(lo as int, hi as int)),
{
    let ghost s = v@.subrange(lo as int, hi as int);
    if lo == hi {
        return false;
    }
    let mut i = lo;
    while i < hi
        invariant
            lo <= i <= hi <= v@.len(),
            s == v@.subrange(lo as int, hi as int),
            forall|k: int| 0 <= k < i - lo ==> (s[k] == '-' || s[k] == '='),
        decreases hi - i,
    {
        if v[i] != '-' && v[i] != '=' {
            assert(!(s[i - lo] == '-' || s[i - lo] == '='));
            return false;
        }
        i = i + 1;
    }
    true
}

/// The track that `v[lo..hi]` yields at `position`.
pub fn track_from_range(v: &Vec<char>, lo: usize, hi: usize, position: usize) -> (r: Option<Track>)
    requires
        lo <= hi <= v@.len(),
    ensures
        opt_view(r) == parse_line_spec(v@.subrange(lo as int, hi as int), position as nat),
{
    let ghost line = v@.subrange(lo as int, hi as int);
    let (a, b) = trim_bounds(v, lo, hi);
    let ghost t = v@.subrange(a as int, b as int);
    if a == b || is_rule_range(v, a, b) {
        return None;
    }
    let mut k = a;
    while k < b && is_digit_char(v[k])
        invariant
            a <= k <= b <= v@.len(),
            t == v@.subrange(a as int, b as int),
            digit_run_end(t, 0) == digit_run_end(t, k - a),
        decreases b - k,
    {
        k = k + 1;
    }
    let (c, d) = if k > a && k < b && (v[k] == '.' || v[k] == ')') {
        assert(t.subrange(k - a + 1, t.len() as int) =~= v@.subrange(k + 1, b as int));
        trim_bounds(v, k + 1, b)
    } else {
        (a, b)
    };
    let ghost bs = v@.subrange(c as int, d as int);
    assert(bs == strip_number(t));
    let raw = string_of_range(v, a, b);
    let mut j = c;
    while d - j >= 3 && !(v[j] == ' ' && v[j + 1] == '-' && v[j + 2] == ' ')
        invariant
            a <= c <= j <= d <= b <= v@.len(),
            bs == v@.subrange(c as int, d as int),
            first_sep(bs, 0) == first_sep(bs, j - c),
        decreases d - j,
    {
        j = j + 1;
    }
    let found = d - j >= 3;
    if found {
        let (aa, ab) = trim_bounds(v, c, j);
        let (ta, tb) = trim_bounds(v, j + 3, d);
        assert(bs.subrange(0, j - c) =~= v@.subrange(c as int, j as int));
        assert(bs.subrange(j - c + 3, bs.len() as int) =~= v@.subrange(j + 3, d as int));
        if aa < ab && ta < tb {
            return Some(
                Track {
                    position,
                    title: string_of_range(v, ta, tb),
                    artist: Some(string_of_range(v, aa, ab)),
                    raw,
                },
            );
        }
    }
    let title = if c < d {
        string_of_range(v, c, d)
    } else {
        string_of_range(v, a, b)
    };
    Some(Track { position, title, artist: None, raw })
}

/// Reads one raw playlist line as the track at `position`.
///
/// Blank lines and separator lines yield nothing. A line of the form
/// `Artist - Title`, with an optional leading number such as `3.`, is split
/// into its fields; any other line yields a track with no artist whose raw
/// text is kept as written.
pub fn parse_line(raw: &str, position: usize) -> (r: Option<Track>)
    ensures
        opt_view(r) == parse_line_spec(raw@, position as nat),
{
    let v = crate::text::chars_of(raw);
    assert(v@.subrange(0, v@.len() as int) =~= raw@);
    track_from_range(&v, 0, v.len(), position)
}

} // verus!
