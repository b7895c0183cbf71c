//! The solar and propagation feed: indices and band conditions pulled out of
//! the feed's XML text line by line, without a full XML parser.
use vstd::prelude::*;
use crate::text::{
    chars_of, concat_chars, contains, contains_chars, find, find_chars, is_trimmed, is_ws,
    lemma_find_first, lemma_find_spec, lemma_trim_trimmed, lines, occurs_at, slice_chars,
    split_lines, string_of, trim, trim_chars, views,
};

verus! {

broadcast use vstd::string::group_string_axioms;

/// The placeholder for a tag whose text is not on the line.
pub open spec fn not_available() -> Seq<char> {
    seq!['N', '/', 'A']
}

/// `<tag>`
pub open spec fn open_tag(tag: Seq<char>) -> Seq<char> {
    seq!['<'] + tag + seq!['>']
}

/// `</tag>`
pub open spec fn close_tag(tag: Seq<char>) -> Seq<char> {
    seq!['<', '/'] + tag + seq!['>']
}

/// `<tag ` (the tag opened with attributes)
pub open spec fn attr_tag(tag: Seq<char>) -> Seq<char> {
    seq!['<'] + tag + seq![' ']
}

/// The bounds of the text of `tag` on `line`, or `None` where the line holds none.
/// With `<tag>` and `</tag>` both on the line, the text runs from the end of the first
/// `<tag>` to the first `</tag>`. Otherwise, with `<tag ` on the line, it runs from the
/// first `>` after the first `<tag ` to the first `</tag>`.
pub open spec fn tag_span(line: Seq<char>, tag: Seq<char>) -> Option<(int, int)> {
    match (find(line, open_tag(tag)), find(line, close_tag(tag))) {
        (Some(s), Some(e)) => Some((s + open_tag(tag).len(), e)),
        _ => match find(line, attr_tag(tag)) {
            Some(s) => match find(line.subrange(s, line.len() as int), seq!['>']) {
                Some(c) => match find(line, close_tag(tag)) {
                    Some(e) => Some((s + c + 1, e)),
                    None => None,
                },
                None => None,
            },
            None => None,
        },
    }
}

/// The text of `tag` can be cut out of `line`: its start does not lie after its end.
/// (Where it would, the text cannot be sliced and the line is refused.)
pub open spec fn tag_ok(line: Seq<char>, tag: Seq<char>) -> bool {
    match tag_span(line, tag) {
        Some((a, b)) => a <= b,
        None => true,
    }
}

/// The trimmed text of `tag` on `line`, or `N/A`.
pub open spec fn tag_text(line: Seq<char>, tag: Seq<char>) -> Seq<char> {
    match tag_span(line, tag) {
        Some((a, b)) => trim(line.subrange(a, b)),
        None => not_available(),
    }
}

/// `prefix`, then `tag`, then `suffix`.
fn framed(prefix: &str, tag: &Vec<char>, suffix: char) -> (r: Vec<char>)
    ensures
        r@ == prefix@ + tag@ + seq![suffix],
{
    let p = chars_of(prefix);
    let mut r = concat_chars(&p, tag);
    r.push(suffix);
    r
}

/// The bounds of the text of `tag` on `line` (see `tag_span`).
fn tag_bounds(line: &Vec<char>, tag: &Vec<char>) -> (r: Option<(usize, usize)>)
    ensures
        r matches Some((a, b)) ==> tag_span(line@, tag@) == Some((a as int, b as int)) && b
            <= line@.len(),
        r is None ==> tag_span(line@, tag@) is None,
{
    proof {
        reveal_strlit("<");
        reveal_strlit("</");
    }
    let start_tag = framed("<", tag, '>');
    let end_tag = framed("</", tag, '>');
    assert(start_tag@ =~= open_tag(tag@));
    assert(end_tag@ =~= close_tag(tag@));
    proof {
        lemma_find_spec(line@, start_tag@);
        lemma_find_spec(line@, end_tag@);
    }
    let start = find_chars(line, &start_tag);
    let end = find_chars(line, &end_tag);
    if let Some(s) = start {
        if let Some(e) = end {
            assert(find(line@, start_tag@) == Some(s as int));
            assert(s + start_tag@.len() <= line@.len());
            assert(line@.len() == line.len());
            return Some((s + start_tag.len(), e));
        }
    }
    let attr = framed("<", tag, ' ');
    assert(attr@ =~= attr_tag(tag@));
    proof {
        lemma_find_spec(line@, attr@);
    }
    if let Some(s) = find_chars(line, &attr) {
        let rest = slice_chars(line, s, line.len());
        let gt = vec!['>'];
        assert(gt@ =~= seq!['>']);
        proof {
            lemma_find_spec(rest@, gt@);
        }
        if let Some(c) = find_chars(&rest, &gt) {
            if let Some(e) = end {
                return Some((s + c + 1, e));
            }
        }
    }
    None
}

/// The trimmed text of `tag` on `line`, or `N/A` where the line holds none.
pub fn extract_tag_chars(line: &Vec<char>, tag: &Vec<char>) -> (r: Vec<char>)
    requires
        tag_ok(line@, tag@),
    ensures
        r@ == tag_text(line@, tag@),
{
    match tag_bounds(line, tag) {
        Some((a, b)) => {
            let inner = slice_chars(line, a, b);
            trim_chars(&inner)
        },
        None => vec!['N', '/', 'A'],
    }
}

/// What `extract_tag` gives has no whitespace at either end.
pub proof fn lemma_tag_text_trimmed(line: Seq<char>, tag: Seq<char>)
    ensures
        is_trimmed(tag_text(line, tag)),
{
    match tag_span(line, tag) {
        Some((a, b)) => lemma_trim_trimmed(line.subrange(a, b)),
        None => {
            assert(!is_ws('N') && !is_ws('A'));
        },
    }
}

/// A name that can stand in a tag: it holds no `<`, and it does not start with `/`.
pub open spec fn is_tag_name(tag: Seq<char>) -> bool {
    &&& forall|i: int| 0 <= i < tag.len() ==> tag[i] != '<'
    &&& tag.len() > 0 ==> tag[0] != '/'
}

/// A line that holds just `<tag>`, a value, and `</tag>` gives back the value, trimmed,
/// whenever the value does not itself hold `</tag>`: what `extract_tag` reads is what
/// the feed wrote between the tags.
pub proof fn law_extract_tag_reads_value(tag: Seq<char>, value: Seq<char>)
    requires
        is_tag_name(tag),
        !contains(value, close_tag(tag)),
    ensures
        tag_ok(open_tag(tag) + value + close_tag(tag), tag),
        tag_text(open_tag(tag) + value + close_tag(tag), tag) == trim(value),
{
    let open = open_tag(tag);
    let close = close_tag(tag);
    let line = open + value + close;
    let o = open.len() as int;
    let p = o + value.len();
    let c = close.len() as int;
    assert(line.subrange(0, o) =~= open);
    assert(occurs_at(line, open, 0));
    lemma_find_first(line, open, 0);
    assert(line.subrange(p, p + c) =~= close);
    assert(occurs_at(line, close, p));
    lemma_find_spec(value, close);
    assert forall|j: int| 0 <= j < p implies !occurs_at(line, close, j) by {
        if occurs_at(line, close, j) {
            assert(line.subrange(j, j + c)[0] == close[0]);
            assert(line[j] == '<');
            assert(line.subrange(j, j + c)[1] == close[1]);
            assert(line[j + 1] == '/');
            if j == 0 {
                if tag.len() > 0 {
                    assert(line[1] == tag[0]);
                } else {
                    assert(line[1] == '>');
                }
            } else if j < o - 1 {
                assert(line[j] == tag[j - 1]);
            } else if j == o - 1 {
                assert(line[j] == '>');
            } else if j + c <= p {
                assert(value.subrange(j - o, j - o + c) =~= line.subrange(j, j + c));
                assert(occurs_at(value, close, j - o));
            } else {
                let k = p - j;
                assert(0 < k < c);
                assert(line[p] == close[0]);
                assert(line.subrange(j, j + c)[k] == close[k]);
                assert(line[p] == close[k]);
                if k == 1 {
                } else if k < c - 1 {
                    assert(close[k] == tag[k - 2]);
                } else {
                    assert(close[k] == '>');
                }
            }
        }
    }
    lemma_find_first(line, close, p);
    assert(line.subrange(o, p) =~= value);
}

/// The trimmed text between `<tag>` (or `<tag ...>`) and `</tag>` on `line`,
/// or `N/A` where the line holds no such text.
pub fn extract_tag(line: &str, tag: &str) -> (r: String)
    requires
        tag_ok(line@, tag@),
    ensures
        r@ == tag_text(line@, tag@),
        is_trimmed(r@),
{
    proof {
        lemma_tag_text_trimmed(line@, tag@);
    }
    let l = chars_of(line);
    let t = chars_of(tag);
    let r = extract_tag_chars(&l, &t);
    string_of(r.as_slice())
}


/// The solar indices and band conditions of the feed.
#[derive(Debug, Clone)]
pub struct SolarData {
    pub sfi: String,
    pub sn: String,
    pub a_index: String,
    pub k_index: String,
    pub x_ray: String,
    pub band_conditions: Vec<(String, String)>,
}

/// What a `SolarData` holds, as character sequences.
pub struct SolarView {
    pub sfi: Seq<char>,
    pub sn: Seq<char>,
    pub a_index: Seq<char>,
    pub k_index: Seq<char>,
    pub x_ray: Seq<char>,
    pub bands: Seq<(Seq<char>, Seq<char>)>,
}

impl View for SolarData {
    type V = SolarView;

    open spec fn view(&self) -> SolarView {
        SolarView {
            sfi: self.sfi@,
            sn: self.sn@,
            a_index: self.a_index@,
            k_index: self.k_index@,
            x_ray: self.x_ray@,
            bands: self.band_conditions@.map_values(|b: (String, String)| (b.0@, b.1@)),
        }
    }
}

/// No indices and no band conditions.
pub open spec fn empty_solar() -> SolarView {
    SolarView {
        sfi: Seq::empty(),
        sn: Seq::empty(),
        a_index: Seq::empty(),
        k_index: Seq::empty(),
        x_ray: Seq::empty(),
        bands: Seq::empty(),
    }
}

impl Default for SolarData {
    fn default() -> (r: SolarData)
        ensures
            r@ == empty_solar(),
    {
        let r = SolarData {
            sfi: String::new(),
            sn: String::new(),
            a_index: String::new(),
            k_index: String::new(),
            x_ray: String::new(),
            band_conditions: Vec::new(),
        };
        assert(r@.bands =~= Seq::<(Seq<char>, Seq<char>)>::empty());
        r
    }
}

/// The band name of a (trimmed) band line: what stands between `name="` and the next `"`.
pub open spec fn band_name(l: Seq<char>) -> Option<Seq<char>> {
    match find(l, "name=\""@) {
        Some(ns) => {
            let rest = l.subrange(ns + 6, l.len() as int);
            match find(rest, "\""@) {
                Some(ne) => Some(rest.subrange(0, ne)),
                None => None,
            }
        },
        None => None,
    }
}

/// The marker that a (trimmed) line holds first, by number: `<solarflux>` 0,
/// `<sunspots>` 1, `<aindex>` 2, `<kindex>` 3, `<xray>` 4, `<band name=` 5; 6 for none.
pub open spec fn marker(l: Seq<char>) -> int {
    if contains(l, "<solarflux>"@) {
        0
    } else if contains(l, "<sunspots>"@) {
        1
    } else if contains(l, "<aindex>"@) {
        2
    } else if contains(l, "<kindex>"@) {
        3
    } else if contains(l, "<xray>"@) {
        4
    } else if contains(l, "<band name="@) {
        5
    } else {
        6
    }
}

/// The tag whose text a line with marker `k` (below 6) holds.
pub open spec fn marker_tag(k: int) -> Seq<char> {
    if k == 0 {
        "solarflux"@
    } else if k == 1 {
        "sunspots"@
    } else if k == 2 {
        "aindex"@
    } else if k == 3 {
        "kindex"@
    } else if k == 4 {
        "xray"@
    } else {
        "band"@
    }
}

/// The tag whose text a (trimmed) line gives: that of its marker, but none for a band
/// line without a quoted name, and none for a line without a marker.
pub open spec fn line_tag(l: Seq<char>) -> Option<Seq<char>> {
    let k = marker(l);
    if k < 5 || (k == 5 && band_name(l) is Some) {
        Some(marker_tag(k))
    } else {
        None
    }
}

/// What one line of the feed does to the data: the line is trimmed, and the first
/// marker that it holds decides which field its tag text goes to. A band line with a
/// quoted name adds the name and the band's condition; any other line changes nothing.
pub open spec fn apply_line(d: SolarView, line: Seq<char>) -> SolarView {
    let l = trim(line);
    let k = marker(l);
    if k == 0 {
        SolarView { sfi: tag_text(l, marker_tag(k)), ..d }
    } else if k == 1 {
        SolarView { sn: tag_text(l, marker_tag(k)), ..d }
    } else if k == 2 {
        SolarView { a_index: tag_text(l, marker_tag(k)), ..d }
    } else if k == 3 {
        SolarView { k_index: tag_text(l, marker_tag(k)), ..d }
    } else if k == 4 {
        SolarView { x_ray: tag_text(l, marker_tag(k)), ..d }
    } else if k == 5 {
        match band_name(l) {
            Some(name) => SolarView { bands: d.bands.push((name, tag_text(l, marker_tag(k)))), ..d },
            None => d,
        }
    } else {
        d
    }
}

/// The tag text that `apply_line` takes from `line` can be cut out of it.
pub open spec fn line_ok(line: Seq<char>) -> bool {
    let l = trim(line);
    match line_tag(l) {
        Some(t) => tag_ok(l, t),
        None => true,
    }
}

/// The data after the lines `ls`, one after another, starting from nothing.
pub open spec fn solar_of_lines(ls: Seq<Seq<char>>) -> SolarView
    decreases ls.len(),
{
    if ls.len() == 0 {
        empty_solar()
    } else {
        apply_line(solar_of_lines(ls.drop_last()), ls.last())
    }
}

/// What the feed `body` gives.
pub open spec fn solar_of_feed(body: Seq<char>) -> SolarView {
    solar_of_lines(lines(body))
}

/// Every line of `body` can be read without cutting a tag text the wrong way round.
pub open spec fn feed_ok(body: Seq<char>) -> bool {
    forall|i: int| 0 <= i < lines(body).len() ==> line_ok(#[trigger] lines(body)[i])
}

/// The band name of the trimmed line `l`.
fn band_name_chars(l: &Vec<char>) -> (r: Option<Vec<char>>)
    ensures
        r matches Some(n) ==> band_name(l@) == Some(n@),
        r is None ==> band_name(l@) is None,
{
    proof {
        reveal_strlit("name=\"");
        reveal_strlit("\"");
    }
    let name_eq = chars_of("name=\"");
    let quote = chars_of("\"");
    proof {
        lemma_find_spec(l@, name_eq@);
    }
    match find_chars(l, &name_eq) {
        Some(ns) => {
            assert(find(l@, name_eq@) == Some(ns as int));
            assert(name_eq@.len() == 6);
            assert(ns + 6 <= l@.len());
            assert(l@.len() == l.len());
            let rest = slice_chars(l, ns + 6, l.len());
            proof {
                lemma_find_spec(rest@, quote@);
            }
            match find_chars(&rest, &quote) {
                Some(ne) => Some(slice_chars(&rest, 0, ne)),
                None => None,
            }
        },
        None => None,
    }
}

/// The marker that the trimmed line `l` holds first (see `marker`).
fn line_marker(l: &Vec<char>) -> (r: usize)
    ensures
        r == marker(l@),
{
    if contains_chars(l, &chars_of("<solarflux>")) {
        0
    } else if contains_chars(l, &chars_of("<sunspots>")) {
        1
    } else if contains_chars(l, &chars_of("<aindex>")) {
        2
    } else if contains_chars(l, &chars_of("<kindex>")) {
        3
    } else if contains_chars(l, &chars_of("<xray>")) {
        4
    } else if contains_chars(l, &chars_of("<band name=")) {
        5
    } else {
        6
    }
}

/// The tag of marker `k`.
fn marker_tag_chars(k: usize) -> (r: Vec<char>)
    requires
        k < 6,
    ensures
        r@ == marker_tag(k as int),
{
    if k == 0 {
        chars_of("solarflux")
    } else if k == 1 {
        chars_of("sunspots")
    } else if k == 2 {
        chars_of("aindex")
    } else if k == 3 {
        chars_of("kindex")
    } else if k == 4 {
        chars_of("xray")
    } else {
        chars_of("band")
    }
}

/// Applies one line of the feed to `data`.
fn apply_solar_line(data: &mut SolarData, line: &Vec<char>)
    requires
        line_ok(line@),
    ensures
        final(data)@ == apply_line(old(data)@, line@),
{
    let l = trim_chars(line);
    let k = line_marker(&l);
    if k < 5 {
        let text = string_of(extract_tag_chars(&l, &marker_tag_chars(k)).as_slice());
        if k == 0 {
            data.sfi = text;
        } else if k == 1 {
            data.sn = text;
        } else if k == 2 {
            data.a_index = text;
        } else if k == 3 {
            data.k_index = text;
        } else {
            data.x_ray = text;
        }
    } else if k == 5 {
        if let Some(name) = band_name_chars(&l) {
            let status = extract_tag_chars(&l, &marker_tag_chars(k));
            data.band_conditions.push(
                (string_of(name.as_slice()), string_of(status.as_slice())),
            );
            assert(data@.bands =~= old(data)@.bands.push((name@, status@)));
        }
    }
}

/// The indices and band conditions that the feed `body` reports, read line by line.
pub fn solar_from_feed(body: &str) -> (r: SolarData)
    requires
        feed_ok(body@),
    ensures
        r@ == solar_of_feed(body@),
{
    let text = chars_of(body);
    let ls = split_lines(&text);
    let mut data = SolarData::default();
    let mut i: usize = 0;
    while i < ls.len()
        invariant
            i <= ls.len(),
            views(ls@) == lines(body@),
            feed_ok(body@),
            data@ == solar_of_lines(views(ls@).take(i as int)),
        decreases ls.len() - i,
    {
        assert(views(ls@)[i as int] == ls@[i as int]@);
        assert(line_ok(lines(body@)[i as int]));
        apply_solar_line(&mut data, &ls[i]);
        assert(views(ls@).take(i + 1).drop_last() =~= views(ls@).take(i as int));
        i += 1;
    }
    assert(views(ls@).take(i as int) =~= views(ls@));
    data
}

/// Whether every line of `body` can be read (see `feed_ok`).
pub fn feed_accepted(body: &str) -> (r: bool)
    ensures
        r == feed_ok(body@),
{
    let text = chars_of(body);
    let ls = split_lines(&text);
    let mut i: usize = 0;
    while i < ls.len()
        invariant
            i <= ls.len(),
            views(ls@) == lines(body@),
            forall|k: int| 0 <= k < i ==> line_ok(#[trigger] lines(body@)[k]),
        decreases ls.len() - i,
    {
        assert(views(ls@)[i as int] == ls@[i as int]@);
        if !line_accepted(&ls[i]) {
            return false;
        }
        i += 1;
    }
    true
}

/// Whether one line can be read (see `line_ok`).
fn line_accepted(line: &Vec<char>) -> (r: bool)
    ensures
        r == line_ok(line@),
{
    let l = trim_chars(line);
    let k = line_marker(&l);
    if k < 5 || (k == 5 && band_name_chars(&l).is_some()) {
        tag_accepted(&l, &marker_tag_chars(k))
    } else {
        true
    }
}

/// Whether the text of `tag` can be cut out of `line` (see `tag_ok`).
pub fn tag_accepted(line: &Vec<char>, tag: &Vec<char>) -> (r: bool)
    ensures
        r == tag_ok(line@, tag@),
{
    match tag_bounds(line, tag) {
        Some((a, b)) => a <= b,
        None => true,
    }
}

/// Band conditions once read are kept: reading more lines only adds conditions after
/// them, in the order of the lines.
pub proof fn law_band_conditions_only_grow(ls: Seq<Seq<char>>, more: Seq<Seq<char>>)
    ensures
        solar_of_lines(ls).bands.is_prefix_of(solar_of_lines(ls + more).bands),
    decreases more.len(),
{
    if more.len() == 0 {
        assert(ls + more =~= ls);
    } else {
        law_band_conditions_only_grow(ls, more.drop_last());
        assert((ls + more).drop_last() =~= ls + more.drop_last());
        let before = solar_of_lines(ls + more.drop_last()).bands;
        let after = solar_of_lines(ls + more).bands;
        assert(after == before || after == before.push(
            (band_name(trim(more.last()))->0, tag_text(trim(more.last()), "band"@)),
        ));
    }
}

/// `t` stands somewhere in `l`, character for character.
pub open spec fn holds_text(l: Seq<char>, t: Seq<char>) -> bool {
    exists|i: int| 0 <= i && i + t.len() <= l.len() && #[trigger] l.subrange(i, i + t.len()) == t
}

/// `contains` finds a text exactly where it stands in the line.
proof fn lemma_contains_is_holds(l: Seq<char>, t: Seq<char>)
    ensures
        contains(l, t) <==> holds_text(l, t),
{
    lemma_find_spec(l, t);
    if contains(l, t) {
        let k = find(l, t)->0;
        assert(l.subrange(k, k + t.len()) == t);
    }
    if holds_text(l, t) {
        let i = choose|i: int|
            0 <= i && i + t.len() <= l.len() && #[trigger] l.subrange(i, i + t.len()) == t;
        assert(occurs_at(l, t, i));
    }
}

/// A line changes an index only if it holds that index's exact opening tag
/// (`<solarflux>`, `<sunspots>`, `<aindex>`, `<kindex>`, `<xray>`), and adds a band
/// condition only if it holds `<band name=`. A line such as `<kindexnt>...</kindexnt>`
/// changes nothing.
pub proof fn law_fields_change_only_on_their_tag(d: SolarView, line: Seq<char>)
    ensures
        apply_line(d, line).sfi != d.sfi ==> holds_text(trim(line), "<solarflux>"@),
        apply_line(d, line).sn != d.sn ==> holds_text(trim(line), "<sunspots>"@),
        apply_line(d, line).a_index != d.a_index ==> holds_text(trim(line), "<aindex>"@),
        apply_line(d, line).k_index != d.k_index ==> holds_text(trim(line), "<kindex>"@),
        apply_line(d, line).x_ray != d.x_ray ==> holds_text(trim(line), "<xray>"@),
        apply_line(d, line).bands != d.bands ==> holds_text(trim(line), "<band name="@),
{
    let l = trim(line);
    lemma_contains_is_holds(l, "<solarflux>"@);
    lemma_contains_is_holds(l, "<sunspots>"@);
    lemma_contains_is_holds(l, "<aindex>"@);
    lemma_contains_is_holds(l, "<kindex>"@);
    lemma_contains_is_holds(l, "<xray>"@);
    lemma_contains_is_holds(l, "<band name="@);
}

/// A line holding an index's opening tag, and none of those tested before it, sets that
/// index to the tag's text on the line and leaves everything else as it was: the tags
/// are tried in the order `<solarflux>`, `<sunspots>`, `<aindex>`, `<kindex>`, `<xray>`.
pub proof fn law_tag_line_sets_its_index(d: SolarView, line: Seq<char>)
    ensures
        ({
            let l = trim(line);
            let r = apply_line(d, line);
            &&& holds_text(l, "<solarflux>"@) ==> r == SolarView {
                sfi: tag_text(l, "solarflux"@),
                ..d
            }
            &&& !holds_text(l, "<solarflux>"@) && holds_text(l, "<sunspots>"@) ==> r
                == SolarView { sn: tag_text(l, "sunspots"@), ..d }
            &&& !holds_text(l, "<solarflux>"@) && !holds_text(l, "<sunspots>"@) && holds_text(
                l,
                "<aindex>"@,
            ) ==> r == SolarView { a_index: tag_text(l, "aindex"@), ..d }
            &&& !holds_text(l, "<solarflux>"@) && !holds_text(l, "<sunspots>"@) && !holds_text(
                l,
                "<aindex>"@,
            ) && holds_text(l, "<kindex>"@) ==> r == SolarView {
                k_index: tag_text(l, "kindex"@),
                ..d
            }
            &&& !holds_text(l, "<solarflux>"@) && !holds_text(l, "<sunspots>"@) && !holds_text(
                l,
                "<aindex>"@,
            ) && !holds_text(l, "<kindex>"@) && holds_text(l, "<xray>"@) ==> r == SolarView {
                x_ray: tag_text(l, "xray"@),
                ..d
            }
        }),
{
    let l = trim(line);
    lemma_contains_is_holds(l, "<solarflux>"@);
    lemma_contains_is_holds(l, "<sunspots>"@);
    lemma_contains_is_holds(l, "<aindex>"@);
    lemma_contains_is_holds(l, "<kindex>"@);
    lemma_contains_is_holds(l, "<xray>"@);
}

} // verus!
