use vstd::prelude::*;

use crate::playlist::{
    count_nonblank, lemma_positions_from_one, lemma_track_per_nonblank_line, lines_of, parse_text,
    tracks_view, well_formed, Playlist,
};
use crate::text::push_all_str;
use crate::track::{Track, TrackView};

verus! {

/// How a playlist is shown.
#[derive(PartialEq, Eq, Structural, Clone, Copy, Debug)]
pub enum FormattingStyle {
    /// One line per track, no numbers.
    Basic,
    /// Each line prefixed with the track's position.
    Numbered,
    /// A framed, numbered listing, shown after the info block.
    Pretty,
}

/// Number of dashes in the frame lines of the pretty style.
pub const RULE_WIDTH: usize = 40;

pub open spec fn digit_char(d: nat) -> char {
    seq!['0', '1', '2', '3', '4', '5', '6', '7', '8', '9'][d as int]
}

/// The decimal digits of `n`, most significant first.
pub open spec fn decimal(n: nat) -> Seq<char>
    decreases n,
{
    if n < 10 {
        seq![digit_char(n)]
    } else {
        decimal(n / 10).push(digit_char(n % 10))
    }
}

pub open spec fn spaces(k: nat) -> Seq<char> {
    Seq::new(k, |i: int| ' ')
}

pub open spec fn dashes(k: nat) -> Seq<char> {
    Seq::new(k, |i: int| '-')
}

/// What a track shows in every style: `Artist - Title`, or its raw text
/// when it has no artist.
pub open spec fn content(t: TrackView) -> Seq<char> {
    match t.artist {
        Some(a) => a + seq![' ', '-', ' '] + t.title,
        None => t.raw,
    }
}

/// Position of a track right-aligned in a column `w` wide, then `". "`.
pub open spec fn number_prefix(position: nat, w: nat) -> Seq<char> {
    let d = decimal(position).len();
    let pad: nat = if w > d {
        (w - d) as nat
    } else {
        0
    };
    spaces(pad) + decimal(position) + seq!['.', ' ']
}

/// Width of the number column for a playlist of `n` tracks.
pub open spec fn number_width(n: nat) -> nat {
    decimal(n).len()
}

pub open spec fn numbered_lines(ts: Seq<TrackView>) -> Seq<Seq<char>> {
    Seq::new(
        ts.len(),
        |i: int| number_prefix(ts[i].position, number_width(ts.len())) + content(ts[i]),
    )
}

/// The lines that `style` shows for tracks `ts`.
pub open spec fn render_spec(ts: Seq<TrackView>, style: FormattingStyle) -> Seq<Seq<char>> {
    match style {
        FormattingStyle::Basic => Seq::new(ts.len(), |i: int| content(ts[i])),
        FormattingStyle::Numbered => numbered_lines(ts),
        FormattingStyle::Pretty => seq![dashes(RULE_WIDTH as nat)] + numbered_lines(ts) + seq![
            dashes(RULE_WIDTH as nat),
        ],
    }
}

pub open spec fn strings_view(v: Seq<String>) -> Seq<Seq<char>> {
    v.map_values(|s: String| s@)
}

/// `lines`, each followed by a line feed.
pub open spec fn join_lines(lines: Seq<Seq<char>>) -> Seq<char>
    decreases lines.len(),
{
    if lines.len() == 0 {
        Seq::empty()
    } else {
        join_lines(lines.drop_last()) + lines.last().push('\n')
    }
}

fn digit(d: u64) -> (c: char)
    requires
        d < 10,
    ensures
        c == digit_char(d as nat),
{
    match d {
        0 => '0',
        1 => '1',
        2 => '2',
        3 => '3',
        4 => '4',
        5 => '5',
        6 => '6',
        7 => '7',
        8 => '8',
        _ => '9',
    }
}

/// Appends the decimal digits of `n` to `s`.
pub fn push_decimal(s: &mut String, n: u64)
    ensures
        final(s)@ == old(s)@ + decimal(n as nat),
    decreases n,
{
    if n >= 10 {
        push_decimal(s, n / 10);
    }
    crate::text::push_char(s, digit(n % 10));
    assert(final(s)@ =~= old(s)@ + decimal(n as nat));
}

/// Number of decimal digits of `n`.
pub fn decimal_len(n: usize) -> (r: usize)
    ensures
        r == decimal(n as nat).len(),
    decreases n,
{
    if n < 10 {
        1
    } else {
        proof {
            lemma_decimal_len_bound((n / 10) as nat);
        }
        decimal_len(n / 10) + 1
    }
}

pub proof fn lemma_decimal_len_bound(n: nat)
    ensures
        decimal(n).len() <= n + 1,
    decreases n,
{
    if n >= 10 {
        lemma_decimal_len_bound(n / 10);
    }
}

proof fn lemma_digit_char(d: nat)
    requires
        d < 10,
    ensures
        '0' <= digit_char(d) <= '9',
{
    assert(d == 0 || d == 1 || d == 2 || d == 3 || d == 4 || d == 5 || d == 6 || d == 7 || d == 8
        || d == 9);
}

proof fn lemma_digit_char_injective(a: nat, b: nat)
    requires
        a < 10,
        b < 10,
        digit_char(a) == digit_char(b),
    ensures
        a == b,
{
    assert(a == 0 || a == 1 || a == 2 || a == 3 || a == 4 || a == 5 || a == 6 || a == 7 || a == 8
        || a == 9);
    assert(b == 0 || b == 1 || b == 2 || b == 3 || b == 4 || b == 5 || b == 6 || b == 7 || b == 8
        || b == 9);
}

proof fn lemma_decimal_first(n: nat)
    ensures
        decimal(n).len() >= 1,
        '0' <= decimal(n)[0] <= '9',
    decreases n,
{
    if n < 10 {
        lemma_digit_char(n);
    } else {
        lemma_decimal_first(n / 10);
    }
}

proof fn lemma_decimal_len_mono(a: nat, b: nat)
    requires
        a <= b,
    ensures
        decimal(a).len() <= decimal(b).len(),
    decreases b,
{
    if b >= 10 {
        if a >= 10 {
            lemma_decimal_len_mono(a / 10, b / 10);
        } else {
            lemma_decimal_first(b / 10);
        }
    }
}

proof fn lemma_decimal_injective(a: nat, b: nat)
    requires
        decimal(a) == decimal(b),
    ensures
        a == b,
    decreases a,
{
    if a < 10 && b < 10 {
        assert(decimal(a)[0] == digit_char(a));
        assert(decimal(b)[0] == digit_char(b));
        lemma_digit_char_injective(a, b);
    } else if a < 10 {
        lemma_decimal_first(b / 10);
        assert(decimal(b).len() == decimal(b / 10).len() + 1);
        assert(decimal(a).len() == 1);
    } else if b < 10 {
        lemma_decimal_first(a / 10);
        assert(decimal(a).len() == decimal(a / 10).len() + 1);
        assert(decimal(b).len() == 1);
    } else {
        let da = decimal(a);
        let db = decimal(b);
        assert(da.drop_last() =~= decimal(a / 10));
        assert(db.drop_last() =~= decimal(b / 10));
        lemma_decimal_injective(a / 10, b / 10);
        assert(da.last() == digit_char(a % 10));
        assert(db.last() == digit_char(b % 10));
        lemma_digit_char_injective(a % 10, b % 10);
        assert(a == 10 * (a / 10) + a % 10);
        assert(b == 10 * (b / 10) + b % 10);
    }
}

proof fn lemma_prefix_shape(a: nat, w: nat)
    requires
        decimal(a).len() <= w,
    ensures
        number_prefix(a, w).len() == w + 2,
        number_prefix(a, w).subrange(w - decimal(a).len(), w as int) == decimal(a),
        forall|k: int| 0 <= k < w - decimal(a).len() ==> number_prefix(a, w)[k] == ' ',
{
    let p = number_prefix(a, w);
    let d = decimal(a);
    assert(p.subrange(w - d.len(), w as int) =~= d);
}

proof fn lemma_prefix_distinct(a: nat, b: nat, w: nat)
    requires
        decimal(a).len() <= w,
        decimal(b).len() <= w,
        a != b,
    ensures
        number_prefix(a, w) != number_prefix(b, w),
{
    lemma_prefix_shape(a, w);
    lemma_prefix_shape(b, w);
    lemma_decimal_first(a);
    lemma_decimal_first(b);
    let la = decimal(a).len();
    let lb = decimal(b).len();
    if number_prefix(a, w) == number_prefix(b, w) {
        let p = number_prefix(a, w);
        if la == lb {
            lemma_decimal_injective(a, b);
        } else if la < lb {
            assert(p[w - lb] == decimal(b)[0]);
        } else {
            assert(p[w - la] == decimal(a)[0]);
        }
    }
}

/// Rendering is a function of the tracks and the style: two renderings of
/// the same playlist in the same style are identical.
pub proof fn lemma_render_deterministic(
    ts: Seq<TrackView>,
    style: FormattingStyle,
    first: Seq<String>,
    second: Seq<String>,
)
    requires
        strings_view(first) == render_spec(ts, style),
        strings_view(second) == render_spec(ts, style),
    ensures
        strings_view(first) == strings_view(second),
        first.len() == second.len(),
        forall|i: int| 0 <= i < first.len() ==> first[i]@ == second[i]@,
{
    assert(strings_view(first).len() == first.len());
    assert(strings_view(second).len() == second.len());
    assert forall|i: int| 0 <= i < first.len() implies first[i]@ == second[i]@ by {
        assert(strings_view(first)[i] == first[i]@);
        assert(strings_view(second)[i] == second[i]@);
    }
}

/// In a well-formed playlist text, the basic rendering has one line per
/// non-blank input line.
pub proof fn lemma_basic_line_count(s: Seq<char>)
    requires
        well_formed(s),
    ensures
        render_spec(parse_text(s), FormattingStyle::Basic).len() == count_nonblank(lines_of(s)),
{
    lemma_track_per_nonblank_line(s);
}

/// The numbered rendering of `n` tracks has `n` lines; line `i` starts with
/// the number `i + 1`, so numbers ascend and no two lines share one; every
/// number is right-aligned in one column as wide as `n` has digits, a single
/// column below ten tracks.
pub proof fn lemma_numbered_columns(s: Seq<char>)
    ensures
        ({
            let ts = parse_text(s);
            let lines = render_spec(ts, FormattingStyle::Numbered);
            let w = number_width(ts.len());
            &&& lines.len() == ts.len()
            &&& ts.len() < 10 ==> w == 1
            &&& forall|i: int|
                0 <= i < ts.len() ==> #[trigger] lines[i] == number_prefix((i + 1) as nat, w)
                    + content(ts[i])
            &&& forall|i: int|
                0 <= i < ts.len() ==> (#[trigger] number_prefix((i + 1) as nat, w)).len() == w
                    + 2
            &&& forall|i: int, j: int|
                0 <= i < j < ts.len() ==> #[trigger] number_prefix((i + 1) as nat, w)
                    != #[trigger] number_prefix((j + 1) as nat, w)
        }),
{
    let ts = parse_text(s);
    let n = ts.len();
    let w = number_width(n);
    lemma_positions_from_one(s);
    assert forall|i: int| 0 <= i < n implies (#[trigger] number_prefix((i + 1) as nat, w)).len()
        == w + 2 by {
        lemma_decimal_len_mono((i + 1) as nat, n);
        lemma_prefix_shape((i + 1) as nat, w);
    }
    assert forall|i: int, j: int| 0 <= i < j < n implies #[trigger] number_prefix((i + 1) as nat, w)
        != #[trigger] number_prefix((j + 1) as nat, w) by {
        lemma_decimal_len_mono((i + 1) as nat, n);
        lemma_decimal_len_mono((j + 1) as nat, n);
        lemma_prefix_distinct((i + 1) as nat, (j + 1) as nat, w);
    }
}

/// Appends `k` spaces to `s`.
fn push_spaces(s: &mut String, k: usize)
    ensures
        final(s)@ == old(s)@ + spaces(k as nat),
{
    let mut i: usize = 0;
    while i < k
        invariant
            i <= k,
            s@ == old(s)@ + spaces(i as nat),
        decreases k - i,
    {
        crate::text::push_char(s, ' ');
        i = i + 1;
        assert(s@ =~= old(s)@ + spaces(i as nat));
    }
}

fn rule_line() -> (r: String)
    ensures
        r@ == dashes(RULE_WIDTH as nat),
{
    let mut s = String::new();
    let mut i: usize = 0;
    while i < RULE_WIDTH
        invariant
            i <= RULE_WIDTH,
            s@ == dashes(i as nat),
        decreases RULE_WIDTH - i,
    {
        crate::text::push_char(&mut s, '-');
        i = i + 1;
        assert(s@ =~= dashes(i as nat));
    }
    s
}

impl Track {
    /// What this track shows in every style.
    pub fn content(&self) -> (r: String)
        ensures
            r@ == content(self@),
    {
        match &self.artist {
            Some(a) => {
                let mut s = a.clone();
                push_all_str(&mut s, " - ");
                proof {
                    reveal_strlit(" - ");
                }
                push_all_str(&mut s, self.title.as_str());
                assert(s@ =~= content(self@));
                s
            },
            None => self.raw.clone(),
        }
    }

    /// This track's line in a numbered listing whose number column is `width` wide.
    pub fn numbered(&self, width: usize) -> (r: String)
        ensures
            r@ == number_prefix(self@.position, width as nat) + content(self@),
    {
        let mut s = String::new();
        let d = decimal_len(self.position);
        let pad = if width > d {
            width - d
        } else {
            0
        };
        push_spaces(&mut s, pad);
        push_decimal(&mut s, self.position as u64);
        crate::text::push_char(&mut s, '.');
        crate::text::push_char(&mut s, ' ');
        let c = self.content();
        push_all_str(&mut s, c.as_str());
        assert(s@ =~= number_prefix(self@.position, width as nat) + content(self@));
        s
    }
}

fn numbered_listing(tracks: &Vec<Track>, out: &mut Vec<String>)
    ensures
        strings_view(final(out)@) == strings_view(old(out)@) + numbered_lines(
            tracks_view(tracks@),
        ),
{
    let width = decimal_len(tracks.len());
    let ghost ts = tracks_view(tracks@);
    let mut i: usize = 0;
    while i < tracks.len()
        invariant
            i <= tracks@.len(),
            ts == tracks_view(tracks@),
            width == number_width(ts.len()),
            strings_view(out@) == strings_view(old(out)@) + numbered_lines(ts).take(i as int),
        decreases tracks.len() - i,
    {
        let line = tracks[i].numbered(width);
        assert(ts[i as int] == tracks@[i as int]@);
        let ghost prev = out@;
        out.push(line);
        assert(strings_view(out@) =~= strings_view(prev).push(line@));
        i = i + 1;
        assert(strings_view(out@) =~= strings_view(old(out)@) + numbered_lines(ts).take(
            i as int,
        ));
    }
    assert(numbered_lines(ts).take(i as int) =~= numbered_lines(ts));
}

impl Playlist {
    /// The lines that `style` shows for this playlist's tracks.
    pub fn render(&self, style: FormattingStyle) -> (r: Vec<String>)
        ensures
            strings_view(r@) == render_spec(tracks_view(self.tracks@), style),
    {
        let ghost ts = tracks_view(self.tracks@);
        let mut out: Vec<String> = Vec::new();
        match style {
            FormattingStyle::Basic => {
                let mut i: usize = 0;
                while i < self.tracks.len()
                    invariant
                        i <= self.tracks@.len(),
                        ts == tracks_view(self.tracks@),
                        strings_view(out@) == Seq::new(i as nat, |k: int| content(ts[k])),
                    decreases self.tracks.len() - i,
                {
                    let line = self.tracks[i].content();
                    assert(ts[i as int] == self.tracks@[i as int]@);
                    let ghost prev = out@;
                    out.push(line);
                    assert(strings_view(out@) =~= strings_view(prev).push(line@));
                    i = i + 1;
                    assert(strings_view(out@) =~= Seq::new(i as nat, |k: int| content(ts[k])));
                }
            },
            FormattingStyle::Numbered => {
                numbered_listing(&self.tracks, &mut out);
                assert(strings_view(out@) =~= numbered_lines(ts));
            },
            FormattingStyle::Pretty => {
                out.push(rule_line());
                assert(strings_view(out@) =~= seq![dashes(RULE_WIDTH as nat)]);
                numbered_listing(&self.tracks, &mut out);
                out.push(rule_line());
                assert(strings_view(out@) =~= render_spec(ts, style));
            },
        }
        out
    }
}

/// The info block shown before a pretty listing.
pub open spec fn info_spec(name: Seq<char>, path: Seq<char>, n: nat, size: nat, modified: Seq<char>) -> Seq<Seq<char>> {
    seq![
        "File: "@ + name,
        "Path: "@ + path,
        "Tracks: "@ + decimal(n),
        "Size: "@ + decimal(size) + " bytes"@,
        "Modified: "@ + modified,
    ]
}

fn labelled(label: &str, value: &str) -> (r: String)
    ensures
        r@ == label@ + value@,
{
    let mut s = String::new();
    push_all_str(&mut s, label);
    push_all_str(&mut s, value);
    assert(s@ =~= label@ + value@);
    s
}

fn labelled_number(label: &str, n: u64) -> (r: String)
    ensures
        r@ == label@ + decimal(n as nat),
{
    let mut s = String::new();
    push_all_str(&mut s, label);
    push_decimal(&mut s, n);
    assert(s@ =~= label@ + decimal(n as nat));
    s
}

impl Playlist {
    /// The lines of the info block: source file name, path, track count,
    /// size and modification time.
    pub fn info_lines(&self) -> (r: Vec<String>)
        ensures
            strings_view(r@) == info_spec(
                self.info.name@,
                self.path@,
                self.tracks@.len(),
                self.info.size as nat,
                self.info.modified@,
            ),
    {
        let mut out: Vec<String> = Vec::new();
        out.push(labelled("File: ", self.info.name.as_str()));
        out.push(labelled("Path: ", self.path.as_str()));
        out.push(labelled_number("Tracks: ", self.tracks.len() as u64));
        let mut size = labelled_number("Size: ", self.info.size);
        push_all_str(&mut size, " bytes");
        out.push(size);
        out.push(labelled("Modified: ", self.info.modified.as_str()));
        assert(strings_view(out@) =~= info_spec(
            self.info.name@,
            self.path@,
            self.tracks@.len(),
            self.info.size as nat,
            self.info.modified@,
        ));
        out
    }
}

/// The style that the command-line flags select: basic wins over numbered,
/// and pretty is the default.
pub fn style_from_flags(basic: bool, numbered: bool) -> (r: FormattingStyle)
    ensures
        r == (if basic {
            FormattingStyle::Basic
        } else if numbered {
            FormattingStyle::Numbered
        } else {
            FormattingStyle::Pretty
        }),
{
    if basic {
        FormattingStyle::Basic
    } else if numbered {
        FormattingStyle::Numbered
    } else {
        FormattingStyle::Pretty
    }
}

/// The text of `lines` as written to a file: each line ends in a line feed.
pub fn to_text(lines: &Vec<String>) -> (r: String)
    ensures
        r@ == join_lines(strings_view(lines@)),
{
    let mut s = String::new();
    let mut i: usize = 0;
    while i < lines.len()
        invariant
            i <= lines@.len(),
            s@ == join_lines(strings_view(lines@).take(i as int)),
        decreases lines.len() - i,
    {
        push_all_str(&mut s, lines[i].as_str());
        crate::text::push_char(&mut s, '\n');
        proof {
            let t = strings_view(lines@).take(i + 1);
            assert(t.drop_last() =~= strings_view(lines@).take(i as int));
        }
        i = i + 1;
        assert(s@ =~= join_lines(strings_view(lines@).take(i as int)));
    }
    assert(strings_view(lines@).take(i as int) =~= strings_view(lines@));
    s
}

} // verus!
