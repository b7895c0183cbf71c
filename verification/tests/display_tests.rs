use local_ham_dashboard::display::{
    band_level, band_level_of_lowercase, banner, banner_from_figure, banner_lines,
    location_banner, location_from_figure, map_text, propagation_panel, propagation_rows,
    satellite_panel, short_name, solar_lines, solar_panel, ticker_length, ticker_scroll,
    ticker_spans, ticker_view, BandLevel, TickerSpan, TickerView,
};
use local_ham_dashboard::news::NewsData;
use local_ham_dashboard::solar::SolarData;

fn solar() -> SolarData {
    SolarData {
        sfi: "150".to_string(),
        sn: "120".to_string(),
        a_index: "8".to_string(),
        k_index: "2".to_string(),
        x_ray: "B5.4".to_string(),
        band_conditions: vec![
            ("80m-40m".to_string(), "Fair".to_string()),
            ("30m-20m".to_string(), "GOOD".to_string()),
            ("6m".to_string(), "Band Closed".to_string()),
        ],
    }
}

#[test]
fn band_levels_ignore_case() {
    assert_eq!(band_level("Good"), BandLevel::Good);
    assert_eq!(band_level("fAiR"), BandLevel::Fair);
    assert_eq!(band_level("POOR"), BandLevel::Poor);
    assert_eq!(band_level("Poor "), BandLevel::Other);
    assert_eq!(band_level(""), BandLevel::Other);
    assert_eq!(band_level_of_lowercase("good"), BandLevel::Good);
    assert_eq!(band_level_of_lowercase("Good"), BandLevel::Other);
}

#[test]
fn propagation_panel_rows() {
    let rows = propagation_rows(&solar());
    assert_eq!(rows.len(), 3);
    assert_eq!(rows[0].label, "80m-40m: ");
    assert_eq!(rows[0].status, "Fair");
    assert_eq!(rows[0].level, BandLevel::Fair);
    assert_eq!(rows[1].level, BandLevel::Good);
    assert_eq!(rows[2].level, BandLevel::Other);
}

#[test]
fn solar_panel_lines() {
    assert_eq!(
        solar_lines(&solar()),
        vec!["SFI:  150", "SN:   120", "A:    8", "K:    2", "XRay: B5.4"]
    );
}

#[test]
fn banner_of_figure_text() {
    let fig = "  _  \n | |   \n        \n |_|\t\n";
    assert_eq!(banner_lines(fig), vec!["  _", " | |", " |_|"]);
    assert!(banner_lines("").is_empty());
}

#[test]
fn banner_in_the_standard_font() {
    assert!(banner("").is_empty());
    let lines = banner("K1");
    assert!(lines.len() > 1);
    for l in &lines {
        assert!(!l.trim().is_empty());
        assert_eq!(l.trim_end(), l);
    }
    let figure = figlet_rs::FIGfont::standard().unwrap().convert("K1").unwrap().to_string();
    assert_eq!(lines, banner_lines(&figure));
}

#[test]
fn banner_of_a_rendering() {
    assert!(banner_from_figure(None).is_empty());
    assert!(banner_from_figure(Some(None)).is_empty());
    assert_eq!(banner_from_figure(Some(Some(" _ \n   \n|_|\n".to_string()))), vec![" _", "|_|"]);
}

#[test]
fn location_lines() {
    assert!(location_from_figure(None).is_empty());
    assert_eq!(location_from_figure(Some(None)), vec!["GRID:"]);
    assert_eq!(location_from_figure(Some(Some("ab \n\n".to_string()))), vec!["GRID:", "ab"]);
    let lines = location_banner("EM48");
    assert_eq!(lines[0], "GRID:");
    assert_eq!(lines[1..].to_vec(), banner("EM48"));
    assert_eq!(location_banner(""), vec!["GRID:"]);
}

#[test]
fn panels_before_data() {
    assert_eq!(solar_panel(&None), vec!["Loading..."]);
    let rows = propagation_panel(&None);
    assert_eq!(rows.len(), 1);
    assert_eq!(rows[0].label, "Loading...");
    assert_eq!(rows[0].status, "");
    assert_eq!(rows[0].level, BandLevel::Other);
    assert_eq!(satellite_panel(&None), vec!["Calculating..."]);
    match ticker_view(&None, 7) {
        TickerView::Waiting(t) => assert_eq!(t, "News: Loading RSS headlines..."),
        TickerView::Running { .. } => panic!("ticker running without news"),
    }
}

#[test]
fn panels_with_data() {
    assert_eq!(solar_panel(&Some(solar())), solar_lines(&solar()));
    assert_eq!(propagation_panel(&Some(solar())).len(), 3);
    let passes = Some(vec![
        ("ISS (ZARYA)".to_string(), "12:05 (34°)".to_string()),
        ("AO-07".to_string(), "13:40 (11°)".to_string()),
    ]);
    assert_eq!(satellite_panel(&passes), vec!["ISS (ZARYA 12:05 (34°)", "AO-07 13:40 (11°)"]);
    assert!(satellite_panel(&Some(Vec::new())).is_empty());
    let news = Some(NewsData { headlines: vec!["ab".to_string(), "cde".to_string()] });
    match ticker_view(&news, 20) {
        TickerView::Running { spans, scroll } => {
            assert_eq!(spans, ticker_spans(2));
            assert_eq!(scroll, 20 % 11);
        }
        TickerView::Waiting(_) => panic!("ticker waiting with news"),
    }
}

#[test]
fn ticker_pieces() {
    assert!(ticker_spans(0).is_empty());
    assert_eq!(ticker_spans(1), vec![TickerSpan::Headline(0)]);
    assert_eq!(
        ticker_spans(3),
        vec![
            TickerSpan::Headline(0),
            TickerSpan::Separator,
            TickerSpan::Headline(1),
            TickerSpan::Separator,
            TickerSpan::Headline(2),
        ]
    );
}

#[test]
fn ticker_length_counts_bytes() {
    let n = NewsData { headlines: vec!["abc".to_string(), "é".to_string()] };
    assert_eq!(ticker_length(&n), Some(3 + 3 + 2 + 3));
    assert_eq!(ticker_length(&NewsData { headlines: Vec::new() }), Some(0));
}

#[test]
fn ticker_scroll_wraps() {
    assert_eq!(ticker_scroll(0, 1234), 0);
    assert_eq!(ticker_scroll(11, 25), 3);
    assert_eq!(ticker_scroll(100000, 70000), (70000u32 % 65536) as u16);
}

#[test]
fn day_and_night_map() {
    let rows = vec![vec![true, false], vec![false, true], vec![]];
    assert_eq!(map_text(&rows), ".\u{2588}\n\u{2588}.\n");
    assert_eq!(map_text(&Vec::new()), "");
    assert_eq!(map_text(&vec![vec![true]]), ".");
}

#[test]
fn satellite_names_are_cut_to_ten_bytes() {
    assert_eq!(short_name("ISS (ZARYA)"), "ISS (ZARYA");
    assert_eq!(short_name("AO-07"), "AO-07");
    assert_eq!(short_name("0123456789"), "0123456789");
    assert_eq!(short_name("ééééé\u{e9}x"), "ééééé");
}
