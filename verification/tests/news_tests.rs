use local_ham_dashboard::news::{feed_headlines, headlines_from_titles, news_from_feeds};

fn feed(titles: &[Option<&str>]) -> Vec<u8> {
    let mut items = String::new();
    for t in titles {
        match t {
            Some(t) => items.push_str(&format!("<item><title>{}</title></item>", t)),
            None => items.push_str("<item><description>no title</description></item>"),
        }
    }
    format!(
        "<?xml version=\"1.0\"?><rss version=\"2.0\"><channel><title>Feed</title>\
         <link>http://example.com</link><description>d</description>{}</channel></rss>",
        items
    )
    .into_bytes()
}

#[test]
fn titles_of_one_feed_in_order() {
    let h = feed_headlines(&feed(&[Some("First"), None, Some("Third")]));
    assert_eq!(h, vec!["First".to_string(), "Third".to_string()]);
}

#[test]
fn unreadable_feed_gives_no_headlines() {
    assert!(feed_headlines(b"this is not a feed").is_empty());
    assert!(feed_headlines(b"").is_empty());
}

#[test]
fn read_titles_to_headlines() {
    assert!(headlines_from_titles(None).is_empty());
    let h = headlines_from_titles(Some(vec![None, Some("a".to_string()), Some("b".to_string())]));
    assert_eq!(h, vec!["a".to_string(), "b".to_string()]);
    assert!(headlines_from_titles(Some(vec![None, None])).is_empty());
}

#[test]
fn feeds_are_merged_in_order() {
    let a = feed(&[Some("A1"), Some("A2")]);
    let b = b"broken".to_vec();
    let c = feed(&[Some("C1")]);
    let n = news_from_feeds(&vec![a.clone(), b.clone(), c.clone()]);
    assert_eq!(n.headlines, vec!["A1".to_string(), "A2".to_string(), "C1".to_string()]);
    let first = news_from_feeds(&vec![a, b]);
    let second = news_from_feeds(&vec![c]);
    let mut joined = first.headlines.clone();
    joined.extend(second.headlines);
    assert_eq!(n.headlines, joined);
}

#[test]
fn no_feeds_no_news() {
    assert!(news_from_feeds(&Vec::new()).headlines.is_empty());
}
