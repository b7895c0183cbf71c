//! News headlines: the item titles of RSS feeds, feed after feed.
use vstd::prelude::*;

verus! {

/// The headlines gathered from the configured feeds.
#[derive(Debug, Clone)]
pub struct NewsData {
    pub headlines: Vec<String>,
}

impl Default for NewsData {
    fn default() -> (r: NewsData)
        ensures
            r@ == Seq::<Seq<char>>::empty(),
    {
        let r = NewsData { headlines: Vec::new() };
        assert(r@ =~= Seq::<Seq<char>>::empty());
        r
    }
}

impl View for NewsData {
    type V = Seq<Seq<char>>;

    open spec fn view(&self) -> Seq<Seq<char>> {
        self.headlines@.map_values(|h: String| h@)
    }
}

/// What the `rss` crate reads from the bytes of a feed: `None` where
/// `rss::Channel::read_from` refuses them, else the title of each item of the
/// channel, in the channel's order (`None` for an item without a title).
pub uninterp spec fn rss_item_titles(content: Seq<u8>) -> Option<Seq<Option<Seq<char>>>>;

/// Reads a feed with `rss::Channel::read_from` and lists the title of each of its
/// items (the `title` field of each `rss::Item`, in the channel's `items`). Claimed: the result is `rss_item_titles` of the bytes,
/// that is, it depends on the bytes alone.
#[verifier::external_body]
fn read_item_titles(content: &[u8]) -> (r: Option<Vec<Option<String>>>)
    ensures
        r.deep_view() == rss_item_titles(content@),
{
    match rss::Channel::read_from(content) {
        Ok(channel) => Some(channel.items.into_iter().map(|item| item.title).collect()),
        Err(_) => None,
    }
}

/// The titles that are present, in order.
pub open spec fn present_titles(items: Seq<Option<Seq<char>>>) -> Seq<Seq<char>>
    decreases items.len(),
{
    if items.len() == 0 {
        Seq::empty()
    } else {
        let rest = present_titles(items.drop_last());
        match items.last() {
            Some(t) => rest.push(t),
            None => rest,
        }
    }
}

/// The headlines that a read feed gives: none for a feed that could not be read,
/// else the titles of its items that have one, in order.
pub open spec fn headlines_of(parsed: Option<Seq<Option<Seq<char>>>>) -> Seq<Seq<char>> {
    match parsed {
        Some(items) => present_titles(items),
        None => Seq::empty(),
    }
}

/// The headlines of the feeds `feeds`, feed after feed.
pub open spec fn news_of_feeds(feeds: Seq<Seq<u8>>) -> Seq<Seq<char>>
    decreases feeds.len(),
{
    if feeds.len() == 0 {
        Seq::empty()
    } else {
        news_of_feeds(feeds.drop_last()) + headlines_of(rss_item_titles(feeds.last()))
    }
}

/// The headlines of a read feed (see `headlines_of`).
pub fn headlines_from_titles(parsed: Option<Vec<Option<String>>>) -> (r: Vec<String>)
    ensures
        r@.map_values(|h: String| h@) == headlines_of(parsed.deep_view()),
{
    let mut r: Vec<String> = Vec::new();
    match parsed {
        None => {
            assert(r@.map_values(|h: String| h@) =~= Seq::<Seq<char>>::empty());
        },
        Some(items) => {
            let ghost dv = items.deep_view();
            let mut i: usize = 0;
            while i < items.len()
                invariant
                    i <= items.len(),
                    dv == items.deep_view(),
                    r@.map_values(|h: String| h@) == present_titles(dv.take(i as int)),
                decreases items.len() - i,
            {
                assert(dv.take(i + 1).drop_last() =~= dv.take(i as int));
                assert(dv[i as int] == items@[i as int].deep_view());
                let ghost before = r@;
                match &items[i] {
                    Some(t) => {
                        r.push(t.clone());
                        assert(r@.map_values(|h: String| h@) =~= before.map_values(
                            |h: String| h@,
                        ).push(t@));
                    },
                    None => {},
                }
                i += 1;
            }
            assert(dv.take(i as int) =~= dv);
        },
    }
    r
}

/// The headlines of one feed, read from its bytes.
pub fn feed_headlines(content: &[u8]) -> (r: Vec<String>)
    ensures
        r@.map_values(|h: String| h@) == headlines_of(rss_item_titles(content@)),
{
    headlines_from_titles(read_item_titles(content))
}

/// The headlines of all the feeds that could be fetched, feed after feed.
pub fn news_from_feeds(feeds: &Vec<Vec<u8>>) -> (r: NewsData)
    ensures
        r@ == news_of_feeds(feeds@.map_values(|f: Vec<u8>| f@)),
{
    let ghost fv = feeds@.map_values(|f: Vec<u8>| f@);
    let mut headlines: Vec<String> = Vec::new();
    let mut i: usize = 0;
    while i < feeds.len()
        invariant
            i <= feeds.len(),
            fv == feeds@.map_values(|f: Vec<u8>| f@),
            headlines@.map_values(|h: String| h@) == news_of_feeds(fv.take(i as int)),
        decreases feeds.len() - i,
    {
        let mut more = feed_headlines(feeds[i].as_slice());
        let ghost before = headlines@;
        let ghost added = more@;
        headlines.append(&mut more);
        assert(fv.take(i + 1).drop_last() =~= fv.take(i as int));
        assert(fv.take(i + 1).last() == feeds@[i as int]@);
        assert(headlines@ == before + added);
        assert(headlines@.map_values(|h: String| h@) =~= before.map_values(|h: String| h@)
            + added.map_values(|h: String| h@));
        i += 1;
    }
    assert(fv.take(i as int) =~= fv);
    NewsData { headlines }
}


/// The headlines of two lists of feeds, gathered one list after the other, are the
/// headlines of the first list followed by those of the second: every feed adds its
/// titles in place, and no feed disturbs another.
pub proof fn law_news_of_joined_feeds(a: Seq<Seq<u8>>, b: Seq<Seq<u8>>)
    ensures
        news_of_feeds(a + b) == news_of_feeds(a) + news_of_feeds(b),
    decreases b.len(),
{
    if b.len() == 0 {
        assert(a + b =~= a);
        assert(news_of_feeds(a) + news_of_feeds(b) =~= news_of_feeds(a));
    } else {
        law_news_of_joined_feeds(a, b.drop_last());
        assert((a + b).drop_last() =~= a + b.drop_last());
        assert((a + b).last() == b.last());
        assert(news_of_feeds(a + b) =~= news_of_feeds(a) + news_of_feeds(b));
    }
}

/// Every item with a title gives exactly its title, in place, and an item without one
/// gives nothing: the headlines of items one after another are those of the first
/// items followed by those of the rest.
pub proof fn law_present_titles_keep_each_title(a: Seq<Option<Seq<char>>>, b: Seq<Option<Seq<char>>>)
    ensures
        present_titles(a + b) == present_titles(a) + present_titles(b),
        forall|t: Seq<char>| #[trigger] present_titles(seq![Some(t)]) == seq![t],
        present_titles(seq![None::<Seq<char>>]).len() == 0,
    decreases b.len(),
{
    assert forall|t: Seq<char>| #[trigger] present_titles(seq![Some(t)]) == seq![t] by {
        assert(seq![Some(t)].drop_last() =~= Seq::<Option<Seq<char>>>::empty());
        assert(present_titles(Seq::<Option<Seq<char>>>::empty()) =~= Seq::<Seq<char>>::empty());
        assert(seq![Some(t)].last() == Some(t));
        assert(Seq::<Seq<char>>::empty().push(t) =~= seq![t]);
    }
    assert(seq![None::<Seq<char>>].drop_last() =~= Seq::<Option<Seq<char>>>::empty());
    assert(present_titles(Seq::<Option<Seq<char>>>::empty()) =~= Seq::<Seq<char>>::empty());
    assert(seq![None::<Seq<char>>].last() == None::<Seq<char>>);
    if b.len() == 0 {
        assert(a + b =~= a);
        assert(present_titles(a) + present_titles(b) =~= present_titles(a));
    } else {
        law_present_titles_keep_each_title(a, b.drop_last());
        assert((a + b).drop_last() =~= a + b.drop_last());
        assert((a + b).last() == b.last());
        assert(present_titles(a + b) =~= present_titles(a) + present_titles(b));
    }
}

/// The number of headlines of a read feed is the number of its items that have a title.
pub proof fn law_present_titles_count(items: Seq<Option<Seq<char>>>)
    ensures
        present_titles(items).len() == items.filter(|x: Option<Seq<char>>| x is Some).len(),
    decreases items.len(),
{
    if items.len() > 0 {
        law_present_titles_count(items.drop_last());
        items.drop_last().lemma_filter_push(items.last(), |x: Option<Seq<char>>| x is Some);
        assert(items.drop_last().push(items.last()) =~= items);
    }
}

} // verus!
