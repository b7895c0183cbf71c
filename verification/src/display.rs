//! What the dashboard panels show: band condition levels, banner lines, the news
//! ticker, the day and night map, the solar summary and satellite names.
use vstd::prelude::*;
use vstd::string::StringExecFns;
use vstd::utf8::{encode_utf8, is_char_boundary};
use vstd::string::StringSliceAdditionalSpecFns;
use figlet_rs::FIGfont;
use crate::news::NewsData;
use crate::solar::SolarData;
use crate::text::{
    back_ws, chars_of, equal_chars, is_ws, lemma_back_ws_bounds, lemma_skip_ws_bounds, lines,
    skip_ws, split_lines, string_of, trim, trim_chars, trim_end, trim_end_chars, views,
};

verus! {

broadcast use vstd::string::group_string_axioms;

/// How good a band's condition is, by its status word.
#[derive(PartialEq, Eq, Structural, Clone, Copy, Debug)]
pub enum BandLevel {
    Good,
    Fair,
    Poor,
    Other,
}

/// The lowercase form of a text, as `str::to_lowercase` computes it
/// (by the Unicode lowercase mappings).
pub uninterp spec fn lowercase_of(s: Seq<char>) -> Seq<char>;

/// std's `str::to_lowercase`. Claimed: the result is `lowercase_of` of the text,
/// a function of the text alone. Nothing more is said of the mapping.
#[verifier::external_body]
fn to_lowercase(s: &str) -> (r: String)
    ensures
        r@ == lowercase_of(s@),
{
    s.to_lowercase()
}

/// The level that a lowercase status word names.
pub open spec fn level_named(lower: Seq<char>) -> BandLevel {
    if lower == "good"@ {
        BandLevel::Good
    } else if lower == "fair"@ {
        BandLevel::Fair
    } else if lower == "poor"@ {
        BandLevel::Poor
    } else {
        BandLevel::Other
    }
}

/// The level named by an already lowercased status word.
pub fn band_level_of_lowercase(lower: &str) -> (r: BandLevel)
    ensures
        r == level_named(lower@),
{
    let l = chars_of(lower);
    if equal_chars(&l, &chars_of("good")) {
        BandLevel::Good
    } else if equal_chars(&l, &chars_of("fair")) {
        BandLevel::Fair
    } else if equal_chars(&l, &chars_of("poor")) {
        BandLevel::Poor
    } else {
        BandLevel::Other
    }
}

/// The level of a band's status, the word compared in lowercase.
pub fn band_level(status: &str) -> (r: BandLevel)
    ensures
        r == level_named(lowercase_of(status@)),
{
    let lower = to_lowercase(status);
    band_level_of_lowercase(lower.as_str())
}

/// One row of the propagation panel: the band's label, its status and its level.
#[derive(Debug, Clone)]
pub struct PropagationRow {
    pub label: String,
    pub status: String,
    pub level: BandLevel,
}

/// The propagation panel: one row per band condition, in order, labelled `band: `.
pub fn propagation_rows(data: &SolarData) -> (r: Vec<PropagationRow>)
    ensures
        r@.len() == data@.bands.len(),
        forall|i: int| 0 <= i < r@.len() ==> #[trigger] r@[i].label@ == data@.bands[i].0 + ": "@,
        forall|i: int| 0 <= i < r@.len() ==> #[trigger] r@[i].status@ == data@.bands[i].1,
        forall|i: int|
            0 <= i < r@.len() ==> #[trigger] r@[i].level == level_named(
                lowercase_of(data@.bands[i].1),
            ),
{
    let mut r: Vec<PropagationRow> = Vec::new();
    let mut i: usize = 0;
    while i < data.band_conditions.len()
        invariant
            i <= data.band_conditions.len(),
            r@.len() == i,
            forall|k: int| 0 <= k < i ==> #[trigger] r@[k].label@ == data@.bands[k].0 + ": "@,
            forall|k: int| 0 <= k < i ==> #[trigger] r@[k].status@ == data@.bands[k].1,
            forall|k: int|
                0 <= k < i ==> #[trigger] r@[k].level == level_named(
                    lowercase_of(data@.bands[k].1),
                ),
        decreases data.band_conditions.len() - i,
    {
        let band = &data.band_conditions[i];
        assert(data@.bands[i as int] == (band.0@, band.1@));
        let label = band.0.clone().concat(": ");
        let level = band_level(band.1.as_str());
        r.push(PropagationRow { label, status: band.1.clone(), level });
        i += 1;
    }
    r
}

/// The solar panel: the flux, sunspot number, A and K indices and X-ray class, one a line.
pub fn solar_lines(data: &SolarData) -> (r: Vec<String>)
    ensures
        r@.map_values(|s: String| s@) == seq![
            "SFI:  "@ + data@.sfi,
            "SN:   "@ + data@.sn,
            "A:    "@ + data@.a_index,
            "K:    "@ + data@.k_index,
            "XRay: "@ + data@.x_ray,
        ],
{
    let mut r: Vec<String> = Vec::new();
    r.push("SFI:  ".to_owned().concat(data.sfi.as_str()));
    r.push("SN:   ".to_owned().concat(data.sn.as_str()));
    r.push("A:    ".to_owned().concat(data.a_index.as_str()));
    r.push("K:    ".to_owned().concat(data.k_index.as_str()));
    r.push("XRay: ".to_owned().concat(data.x_ray.as_str()));
    assert(r@.map_values(|s: String| s@) =~= seq![
        "SFI:  "@ + data@.sfi,
        "SN:   "@ + data@.sn,
        "A:    "@ + data@.a_index,
        "K:    "@ + data@.k_index,
        "XRay: "@ + data@.x_ray,
    ]);
    r
}

/// The lines of a banner: the lines of the rendered figure that hold more than
/// whitespace, each without its trailing whitespace.
pub open spec fn banner_of_lines(ls: Seq<Seq<char>>) -> Seq<Seq<char>>
    decreases ls.len(),
{
    if ls.len() == 0 {
        Seq::empty()
    } else {
        let rest = banner_of_lines(ls.drop_last());
        if trim(ls.last()).len() == 0 {
            rest
        } else {
            rest.push(trim_end(ls.last()))
        }
    }
}

/// Where `s[lo..hi]` holds more than whitespace, dropping its trailing whitespace
/// ends it where dropping that of `s[0..hi]` does.
proof fn lemma_back_ws_from_start(s: Seq<char>, lo: int, hi: int)
    requires
        0 <= lo <= hi <= s.len(),
        back_ws(s, lo, hi) > lo,
    ensures
        back_ws(s, 0, hi) == back_ws(s, lo, hi),
    decreases hi,
{
    if lo < hi && is_ws(s[hi - 1]) {
        lemma_back_ws_from_start(s, lo, hi - 1);
    }
}

/// Every banner line holds more than whitespace and ends without whitespace.
pub proof fn law_banner_lines_clean(ls: Seq<Seq<char>>)
    ensures
        forall|i: int|
            0 <= i < banner_of_lines(ls).len() ==> #[trigger] banner_of_lines(ls)[i].len() > 0
                && !is_ws(banner_of_lines(ls)[i].last()),
    decreases ls.len(),
{
    if ls.len() > 0 {
        law_banner_lines_clean(ls.drop_last());
        let l = ls.last();
        if trim(l).len() != 0 {
            let a = skip_ws(l, 0);
            lemma_skip_ws_bounds(l, 0);
            lemma_back_ws_bounds(l, a, l.len() as int);
            lemma_back_ws_from_start(l, a, l.len() as int);
            lemma_back_ws_bounds(l, 0, l.len() as int);
            let t = trim_end(l);
            assert(t.len() > 0);
            assert(t.last() == l[back_ws(l, 0, l.len() as int) - 1]);
        }
        let rest = banner_of_lines(ls.drop_last());
        assert forall|i: int| 0 <= i < banner_of_lines(ls).len() implies #[trigger] banner_of_lines(
            ls,
        )[i].len() > 0 && !is_ws(banner_of_lines(ls)[i].last()) by {
            if i < rest.len() {
                assert(banner_of_lines(ls)[i] == rest[i]);
            }
        }
    }
}

/// No line holding more than whitespace is dropped and no other line is kept: the
/// banner of lines one after another is the banner of the first lines followed by
/// that of the rest; a non-blank line gives itself without trailing whitespace, a
/// blank one gives nothing.
pub proof fn law_banner_keeps_every_nonblank_line(a: Seq<Seq<char>>, b: Seq<Seq<char>>)
    ensures
        banner_of_lines(a + b) == banner_of_lines(a) + banner_of_lines(b),
        forall|l: Seq<char>|
            #[trigger] banner_of_lines(seq![l]) == if trim(l).len() == 0 {
                Seq::<Seq<char>>::empty()
            } else {
                seq![trim_end(l)]
            },
    decreases b.len(),
{
    assert forall|l: Seq<char>|
        #[trigger] banner_of_lines(seq![l]) == if trim(l).len() == 0 {
            Seq::<Seq<char>>::empty()
        } else {
            seq![trim_end(l)]
        } by {
        assert(seq![l].drop_last() =~= Seq::<Seq<char>>::empty());
        assert(banner_of_lines(Seq::<Seq<char>>::empty()) =~= Seq::<Seq<char>>::empty());
        assert(seq![l].last() == l);
        assert(Seq::<Seq<char>>::empty().push(trim_end(l)) =~= seq![trim_end(l)]);
    }
    if b.len() == 0 {
        assert(a + b =~= a);
        assert(banner_of_lines(a) + banner_of_lines(b) =~= banner_of_lines(a));
    } else {
        law_banner_keeps_every_nonblank_line(a, b.drop_last());
        assert((a + b).drop_last() =~= a + b.drop_last());
        assert((a + b).last() == b.last());
        assert(banner_of_lines(a + b) =~= banner_of_lines(a) + banner_of_lines(b));
    }
}

/// The banner has as many lines as the figure has lines holding more than whitespace.
pub proof fn law_banner_count(ls: Seq<Seq<char>>)
    ensures
        banner_of_lines(ls).len() == ls.filter(|l: Seq<char>| trim(l).len() > 0).len(),
    decreases ls.len(),
{
    if ls.len() > 0 {
        law_banner_count(ls.drop_last());
        ls.drop_last().lemma_filter_push(ls.last(), |l: Seq<char>| trim(l).len() > 0);
        assert(ls.drop_last().push(ls.last()) =~= ls);
    }
}

/// Dropping trailing whitespace keeps a prefix and drops only whitespace, and what is
/// left does not end in whitespace.
pub proof fn law_trim_end_drops_only_trailing_whitespace(s: Seq<char>)
    ensures
        trim_end(s).is_prefix_of(s),
        forall|i: int| trim_end(s).len() <= i < s.len() ==> is_ws(#[trigger] s[i]),
        trim_end(s).len() > 0 ==> !is_ws(trim_end(s).last()),
{
    lemma_back_ws_bounds(s, 0, s.len() as int);
}

/// The banner lines of a rendered figure (see `banner_of_lines`).
pub fn banner_lines(figure: &str) -> (r: Vec<String>)
    ensures
        r@.map_values(|s: String| s@) == banner_of_lines(lines(figure@)),
{
    let text = chars_of(figure);
    let ls = split_lines(&text);
    let ghost lv = views(ls@);
    let mut r: Vec<String> = Vec::new();
    let mut i: usize = 0;
    while i < ls.len()
        invariant
            i <= ls.len(),
            lv == views(ls@),
            lv == lines(figure@),
            r@.map_values(|s: String| s@) == banner_of_lines(lv.take(i as int)),
        decreases ls.len() - i,
    {
        assert(lv.take(i + 1).drop_last() =~= lv.take(i as int));
        assert(lv.take(i + 1).last() == ls@[i as int]@);
        let t = trim_chars(&ls[i]);
        if t.len() > 0 {
            let kept = trim_end_chars(&ls[i]);
            let ghost before = r@;
            r.push(string_of(kept.as_slice()));
            assert(r@.map_values(|s: String| s@) =~= before.map_values(|s: String| s@).push(
                kept@,
            ));
        }
        i += 1;
    }
    assert(lv.take(i as int) =~= lv);
    r
}

/// What the standard figlet font makes of `text`: `None` where
/// `figlet_rs::FIGfont::standard` cannot load the font, else what
/// `FIGfont::convert` gives for the text, the figure written out with its `Display`
/// (`None` where the font renders nothing of the text).
pub uninterp spec fn standard_figure(text: Seq<char>) -> Option<Option<Seq<char>>>;

/// Loads the standard font with `figlet_rs::FIGfont::standard` and renders `text` with
/// `FIGfont::convert`, writing the figure out with its `Display`. Claimed: the result is
/// `standard_figure` of the text, and an empty text renders nothing (the crate's
/// `convert` returns `None` for it first).
#[verifier::external_body]
fn render_standard(text: &str) -> (r: Option<Option<String>>)
    ensures
        r.deep_view() == standard_figure(text@),
        r matches Some(f) ==> (text@.len() == 0 ==> f is None),
{
    match FIGfont::standard() {
        Ok(font) => Some(font.convert(text).map(|figure| figure.to_string())),
        Err(_) => None,
    }
}

/// The banner lines of a rendering: those of the figure, or none where the font did
/// not load or rendered nothing.
pub open spec fn banner_of_rendered(rendered: Option<Option<Seq<char>>>) -> Seq<Seq<char>> {
    match rendered {
        Some(Some(figure)) => banner_of_lines(lines(figure)),
        _ => Seq::empty(),
    }
}

/// The figure lines of the location panel: with the font loaded, the label `GRID:`
/// followed by the banner lines of the grid square; without it, nothing.
pub open spec fn location_of_rendered(rendered: Option<Option<Seq<char>>>) -> Seq<Seq<char>> {
    match rendered {
        Some(_) => seq!["GRID:"@] + banner_of_rendered(rendered),
        None => Seq::empty(),
    }
}

/// The banner lines of a rendering (see `banner_of_rendered`).
pub fn banner_from_figure(rendered: Option<Option<String>>) -> (r: Vec<String>)
    ensures
        r@.map_values(|s: String| s@) == banner_of_rendered(rendered.deep_view()),
{
    match rendered {
        Some(Some(figure)) => banner_lines(figure.as_str()),
        _ => {
            let r: Vec<String> = Vec::new();
            assert(r@.map_values(|s: String| s@) =~= Seq::<Seq<char>>::empty());
            r
        },
    }
}

/// The banner of `text` in the standard figlet font: the non-blank lines of its
/// figure, each without trailing whitespace; none where the font does not load or
/// renders nothing (an empty text renders nothing).
pub fn banner(text: &str) -> (r: Vec<String>)
    ensures
        r@.map_values(|s: String| s@) == banner_of_rendered(standard_figure(text@)),
        text@.len() == 0 ==> r@.len() == 0,
{
    let rendered = render_standard(text);
    proof {
        if text@.len() == 0 {
            if rendered is Some {
                assert(rendered->0 is None);
                assert(rendered.deep_view() == Some(rendered->0.deep_view()));
            }
        }
    }
    let r = banner_from_figure(rendered);
    assert(r@.map_values(|s: String| s@).len() == r@.len());
    r
}

/// The figure lines of the location panel for a rendering of the grid square
/// (see `location_of_rendered`).
pub fn location_from_figure(rendered: Option<Option<String>>) -> (r: Vec<String>)
    ensures
        r@.map_values(|s: String| s@) == location_of_rendered(rendered.deep_view()),
{
    match rendered {
        Some(inner) => {
            let ghost dv = inner.deep_view();
            let mut r: Vec<String> = Vec::new();
            r.push("GRID:".to_owned());
            let mut rest = banner_from_figure(Some(inner));
            let ghost before = r@;
            let ghost added = rest@;
            r.append(&mut rest);
            assert(r@.map_values(|s: String| s@) =~= before.map_values(|s: String| s@)
                + added.map_values(|s: String| s@));
            assert(before.map_values(|s: String| s@) =~= seq!["GRID:"@]);
            r
        },
        None => {
            let r: Vec<String> = Vec::new();
            assert(r@.map_values(|s: String| s@) =~= Seq::<Seq<char>>::empty());
            r
        },
    }
}

/// The figure lines of the location panel: `GRID:` and the banner of the grid square
/// in the standard font, or nothing where the font does not load.
pub fn location_banner(grid_square: &str) -> (r: Vec<String>)
    ensures
        r@.map_values(|s: String| s@) == location_of_rendered(standard_figure(grid_square@)),
{
    location_from_figure(render_standard(grid_square))
}

/// One piece of the news ticker: a headline (by its index) or the separator between two.
#[derive(PartialEq, Eq, Structural, Clone, Copy, Debug)]
pub enum TickerSpan {
    Headline(usize),
    Separator,
}

/// The pieces of the ticker for `count` headlines: the headlines in order with a
/// separator between each two.
pub fn ticker_spans(count: usize) -> (r: Vec<TickerSpan>)
    ensures
        r@.len() == if count == 0 {
            0
        } else {
            2 * count - 1
        },
        forall|i: int|
            0 <= i < r@.len() ==> #[trigger] r@[i] == if i % 2 == 0 {
                TickerSpan::Headline((i / 2) as usize)
            } else {
                TickerSpan::Separator
            },
{
    let mut r: Vec<TickerSpan> = Vec::new();
    let mut k: usize = 0;
    while k < count
        invariant
            k <= count,
            r@.len() == if k == 0 {
                0
            } else {
                2 * k - 1
            },
            forall|i: int|
                0 <= i < r@.len() ==> #[trigger] r@[i] == if i % 2 == 0 {
                    TickerSpan::Headline((i / 2) as usize)
                } else {
                    TickerSpan::Separator
                },
        decreases count - k,
    {
        if k > 0 {
            r.push(TickerSpan::Separator);
        }
        r.push(TickerSpan::Headline(k));
        k += 1;
    }
    r
}

/// The length in bytes of a text held in memory, as `str::len` reports it.
pub open spec fn byte_len(s: Seq<char>) -> nat {
    (encode_utf8(s).len() as usize) as nat
}

/// The length of the ticker text as the scroll counts it: the bytes of each headline
/// plus three for each.
pub open spec fn ticker_len(hs: Seq<Seq<char>>) -> nat
    decreases hs.len(),
{
    if hs.len() == 0 {
        0
    } else {
        ticker_len(hs.drop_last()) + byte_len(hs.last()) + 3
    }
}

/// The ticker length of `news`, or `None` where it does not fit in a `usize`.
pub fn ticker_length(news: &NewsData) -> (r: Option<usize>)
    ensures
        r matches Some(n) ==> n == ticker_len(news@),
        r is None ==> ticker_len(news@) > usize::MAX,
{
    let mut total: usize = 0;
    let mut i: usize = 0;
    while i < news.headlines.len()
        invariant
            i <= news.headlines.len(),
            total == ticker_len(news@.take(i as int)),
        decreases news.headlines.len() - i,
    {
        assert(news@.take(i + 1).drop_last() =~= news@.take(i as int));
        assert(news@[i as int] == news.headlines@[i as int]@);
        let bytes = news.headlines[i].as_str().len();
        match total.checked_add(bytes) {
            None => {
                proof {
                    lemma_ticker_len_grows(news@, i as int + 1);
                }
                return None;
            },
            Some(t) => match t.checked_add(3) {
                None => {
                    proof {
                        lemma_ticker_len_grows(news@, i as int + 1);
                    }
                    return None;
                },
                Some(t3) => {
                    total = t3;
                },
            },
        }
        i += 1;
    }
    assert(news@.take(i as int) =~= news@);
    Some(total)
}

/// The ticker length only grows as headlines are added.
proof fn lemma_ticker_len_grows(hs: Seq<Seq<char>>, k: int)
    requires
        0 <= k <= hs.len(),
    ensures
        ticker_len(hs.take(k)) <= ticker_len(hs),
    decreases hs.len() - k,
{
    if k < hs.len() {
        lemma_ticker_len_grows(hs, k + 1);
        assert(hs.take(k + 1).drop_last() =~= hs.take(k));
    } else {
        assert(hs.take(k) =~= hs);
    }
}

/// The ticker's horizontal scroll for the running offset `scroll`: the offset wrapped
/// round the ticker length (none for an empty ticker), cut to 16 bits as the
/// display's scroll takes it.
pub fn ticker_scroll(total: usize, scroll: usize) -> (r: u16)
    ensures
        r == if total > 0 {
            (scroll % total) % 65536
        } else {
            0
        },
{
    if total > 0 {
        ((scroll % total) % 65536) as u16
    } else {
        0
    }
}

/// The map character of one cell: `.` by day, a full block by night.
pub open spec fn cell_char(day: bool) -> char {
    if day {
        '.'
    } else {
        '\u{2588}'
    }
}

/// One row of the map.
pub open spec fn row_text(row: Seq<bool>) -> Seq<char> {
    row.map_values(|day: bool| cell_char(day))
}

/// The map: its rows, one under the other, joined by line feeds.
pub open spec fn map_picture(rows: Seq<Seq<bool>>) -> Seq<char>
    decreases rows.len(),
{
    if rows.len() == 0 {
        Seq::empty()
    } else if rows.len() == 1 {
        row_text(rows[0])
    } else {
        map_picture(rows.drop_last()) + seq!['\n'] + row_text(rows.last())
    }
}

/// The day and night map from the daylight of each cell, row by row.
pub fn map_text(rows: &Vec<Vec<bool>>) -> (r: String)
    ensures
        r@ == map_picture(rows@.map_values(|row: Vec<bool>| row@)),
{
    let ghost rv = rows@.map_values(|row: Vec<bool>| row@);
    let mut out: Vec<char> = Vec::new();
    let mut y: usize = 0;
    while y < rows.len()
        invariant
            y <= rows.len(),
            rv == rows@.map_values(|row: Vec<bool>| row@),
            out@ == map_picture(rv.take(y as int)),
        decreases rows.len() - y,
    {
        assert(rv.take(y + 1).drop_last() =~= rv.take(y as int));
        assert(rv[y as int] == rows@[y as int]@);
        if y > 0 {
            out.push('\n');
        }
        let ghost start = out@;
        let row = &rows[y];
        let mut x: usize = 0;
        while x < row.len()
            invariant
                x <= row.len(),
                out@ == start + row_text(row@.take(x as int)),
            decreases row.len() - x,
        {
            let c = if row[x] {
                '.'
            } else {
                '\u{2588}'
            };
            out.push(c);
            assert(row_text(row@.take(x + 1)) =~= row_text(row@.take(x as int)).push(c));
            x += 1;
        }
        assert(row@.take(x as int) =~= row@);
        if y == 0 {
            assert(rv.take(1) =~= seq![rv[0]]);
            assert(out@ =~= row_text(rv[0]));
        }
        y += 1;
    }
    assert(rv.take(y as int) =~= rv);
    string_of(out.as_slice())
}

/// A satellite name as the list shows it: its first ten bytes when it is longer.
/// (The cut must fall on a character boundary; elsewhere the name is refused.)
pub fn short_name(name: &str) -> (r: String)
    requires
        name.spec_bytes().len() <= usize::MAX,
        name.spec_bytes().len() > 10 ==> is_char_boundary(name.spec_bytes(), 10),
    ensures
        name.spec_bytes().len() > 10 ==> encode_utf8(r@) == name.spec_bytes().subrange(0, 10),
        name.spec_bytes().len() <= 10 ==> r@ == name@,
{
    if name.len() > 10 {
        let (head, _) = name.split_at(10);
        let r = head.to_owned();
        r
    } else {
        name.to_owned()
    }
}

/// The propagation panel: a row per band condition (see `propagation_rows`), or,
/// before the first solar reading, the single row `Loading...` with no status.
pub fn propagation_panel(solar: &Option<SolarData>) -> (r: Vec<PropagationRow>)
    ensures
        solar matches Some(d) ==> {
            &&& r@.len() == d@.bands.len()
            &&& forall|i: int| 0 <= i < r@.len() ==> #[trigger] r@[i].label@ == d@.bands[i].0 + ": "@
            &&& forall|i: int| 0 <= i < r@.len() ==> #[trigger] r@[i].status@ == d@.bands[i].1
            &&& forall|i: int|
                0 <= i < r@.len() ==> #[trigger] r@[i].level == level_named(
                    lowercase_of(d@.bands[i].1),
                )
        },
        solar is None ==> {
            &&& r@.len() == 1
            &&& r@[0].label@ == "Loading..."@
            &&& r@[0].status@.len() == 0
            &&& r@[0].level == BandLevel::Other
        },
{
    match solar {
        Some(d) => propagation_rows(d),
        None => {
            let mut r: Vec<PropagationRow> = Vec::new();
            r.push(
                PropagationRow {
                    label: "Loading...".to_owned(),
                    status: String::new(),
                    level: BandLevel::Other,
                },
            );
            r
        },
    }
}

/// The solar panel: its five lines (see `solar_lines`), or `Loading...` before the
/// first solar reading.
pub fn solar_panel(solar: &Option<SolarData>) -> (r: Vec<String>)
    ensures
        solar matches Some(d) ==> r@.map_values(|s: String| s@) == seq![
            "SFI:  "@ + d@.sfi,
            "SN:   "@ + d@.sn,
            "A:    "@ + d@.a_index,
            "K:    "@ + d@.k_index,
            "XRay: "@ + d@.x_ray,
        ],
        solar is None ==> r@.map_values(|s: String| s@) == seq!["Loading..."@],
{
    match solar {
        Some(d) => solar_lines(d),
        None => {
            let mut r: Vec<String> = Vec::new();
            r.push("Loading...".to_owned());
            assert(r@.map_values(|s: String| s@) =~= seq!["Loading..."@]);
            r
        },
    }
}

/// The UTF-8 encoding of two texts one after the other is the two encodings joined.
pub proof fn lemma_encode_utf8_join(a: Seq<char>, b: Seq<char>)
    ensures
        encode_utf8(a + b) == encode_utf8(a) + encode_utf8(b),
    decreases a.len(),
{
    if a.len() == 0 {
        assert(a + b =~= b);
        assert(encode_utf8(a) =~= Seq::<u8>::empty());
        assert(encode_utf8(a) + encode_utf8(b) =~= encode_utf8(b));
    } else {
        lemma_encode_utf8_join(a.drop_first(), b);
        assert((a + b).drop_first() =~= a.drop_first() + b);
        assert((a + b)[0] == a[0]);
    }
}

/// The name can be cut after its tenth byte (or is no longer than that), and its
/// length in bytes fits in memory.
pub open spec fn name_cut_ok(name: Seq<char>) -> bool {
    &&& encode_utf8(name).len() <= usize::MAX
    &&& encode_utf8(name).len() > 10 ==> is_char_boundary(encode_utf8(name), 10)
}

/// The bytes of a satellite name as the list shows it: the first ten, or all.
pub open spec fn shown_name_bytes(name: Seq<char>) -> Seq<u8> {
    if encode_utf8(name).len() > 10 {
        encode_utf8(name).subrange(0, 10)
    } else {
        encode_utf8(name)
    }
}

/// The satellite panel: for each pass `(name, when)` in order, the name cut to ten
/// bytes, a space and `when` (its start and elevation, already written out); or
/// `Calculating...` before the first prediction.
pub fn satellite_panel(passes: &Option<Vec<(String, String)>>) -> (r: Vec<String>)
    requires
        passes matches Some(v) ==> forall|i: int| 0 <= i < v@.len() ==> name_cut_ok(#[trigger] v@[i].0@),
    ensures
        passes matches Some(v) ==> {
            &&& r@.len() == v@.len()
            &&& forall|i: int|
                0 <= i < r@.len() ==> #[trigger] encode_utf8(r@[i]@) == shown_name_bytes(v@[i].0@)
                    + encode_utf8(" "@ + v@[i].1@)
        },
        passes is None ==> r@.map_values(|s: String| s@) == seq!["Calculating..."@],
{
    match passes {
        None => {
            let mut r: Vec<String> = Vec::new();
            r.push("Calculating...".to_owned());
            assert(r@.map_values(|s: String| s@) =~= seq!["Calculating..."@]);
            r
        },
        Some(v) => {
            let mut r: Vec<String> = Vec::new();
            let mut i: usize = 0;
            while i < v.len()
                invariant
                    i <= v.len(),
                    r@.len() == i,
                    forall|k: int| 0 <= k < v@.len() ==> name_cut_ok(#[trigger] v@[k].0@),
                    forall|k: int|
                        0 <= k < i ==> #[trigger] encode_utf8(r@[k]@) == shown_name_bytes(
                            v@[k].0@,
                        ) + encode_utf8(" "@ + v@[k].1@),
                decreases v.len() - i,
            {
                let pass = &v[i];
                assert(name_cut_ok(v@[i as int].0@));
                let name = pass.0.as_str();
                let cut = short_name(name);
                let item = cut.concat(" ").concat(pass.1.as_str());
                proof {
                    assert(item@ =~= cut@ + (" "@ + pass.1@));
                    lemma_encode_utf8_join(cut@, " "@ + pass.1@);
                    assert(name.spec_bytes() == encode_utf8(pass.0@));
                }
                r.push(item);
                i += 1;
            }
            r
        },
    }
}

/// What the news ticker shows.
pub enum TickerView {
    /// Before the first headlines have come: a line of text.
    Waiting(String),
    /// The headlines and separators, scrolled left by `scroll` columns.
    Running { spans: Vec<TickerSpan>, scroll: u16 },
}

/// The pieces of a ticker of `count` headlines: the headlines in order, a separator
/// between each two.
pub open spec fn spans_for(count: nat) -> Seq<TickerSpan> {
    Seq::new(
        if count == 0 {
            0
        } else {
            (2 * count - 1) as nat
        },
        |i: int|
            if i % 2 == 0 {
                TickerSpan::Headline((i / 2) as usize)
            } else {
                TickerSpan::Separator
            },
    )
}

/// The news ticker: `News: Loading RSS headlines...` before the first headlines have
/// come; then the headlines with separators, scrolled by the running offset wrapped
/// round the ticker length (see `ticker_scroll`).
pub fn ticker_view(news: &Option<NewsData>, scroll_offset: usize) -> (r: TickerView)
    requires
        news matches Some(n) ==> ticker_len(n@) <= usize::MAX,
    ensures
        news is None ==> (r matches TickerView::Waiting(t) && t@ == "News: Loading RSS headlines..."@),
        news matches Some(n) ==> (r matches TickerView::Running { spans, scroll } && spans@
            == spans_for(n.headlines@.len()) && scroll as int == if ticker_len(n@) > 0 {
            (scroll_offset as int % ticker_len(n@) as int) % 65536
        } else {
            0
        }),
{
    match news {
        None => TickerView::Waiting("News: Loading RSS headlines...".to_owned()),
        Some(n) => {
            let spans = ticker_spans(n.headlines.len());
            assert(spans@ =~= spans_for(n.headlines@.len()));
            let total = match ticker_length(n) {
                Some(t) => t,
                None => 0,
            };
            let scroll = ticker_scroll(total, scroll_offset);
            TickerView::Running { spans, scroll }
        },
    }
}

} // verus!
