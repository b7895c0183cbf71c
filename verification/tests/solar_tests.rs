use local_ham_dashboard::solar::{extract_tag, feed_accepted, solar_from_feed, SolarData};

const FEED: &str = "<?xml version=\"1.0\" encoding=\"ISO-8859-1\"?>\n\
<solar>\n\
\t<solardata>\n\
\t\t<source url=\"http://www.hamqsl.com/solar.html\">N0NBH</source>\n\
\t\t<updated> 19 Nov 2024 1200 GMT</updated>\n\
\t\t<solarflux>150</solarflux>\n\
\t\t<aindex> 8</aindex>\n\
\t\t<kindex> 2 </kindex>\r\n\
\t\t<xray>B5.4</xray>\n\
\t\t<sunspots>120</sunspots>\n\
\t\t<calculatedconditions>\n\
\t\t\t<band name=\"80m-40m\" time=\"day\">Fair</band>\n\
\t\t\t<band name=\"30m-20m\" time=\"day\">Good</band>\n\
\t\t\t<band name=\"80m-40m\" time=\"night\">Poor</band>\n\
\t\t</calculatedconditions>\n\
\t\t<calculatedvhfconditions>\n\
\t\t\t<phenomenon name=\"vhf-aurora\" location=\"northern_hemi\">Band Closed</phenomenon>\n\
\t\t</calculatedvhfconditions>\n\
\t</solardata>\n\
</solar>";

#[test]
fn extract_plain_tag() {
    assert_eq!(extract_tag("<solarflux> 150 </solarflux>", "solarflux"), "150");
    assert_eq!(extract_tag("x<aindex>8</aindex>y", "aindex"), "8");
}

#[test]
fn extract_tag_with_attributes() {
    let line = "<band name=\"80m-40m\" time=\"day\">Fair</band>";
    assert_eq!(extract_tag(line, "band"), "Fair");
}

#[test]
fn extract_missing_tag_is_not_available() {
    assert_eq!(extract_tag("<kindex>3", "kindex"), "N/A");
    assert_eq!(extract_tag("nothing here", "xray"), "N/A");
    assert_eq!(extract_tag("<band name=\"x\" time=\"day\"", "band"), "N/A");
    assert_eq!(extract_tag("", ""), "N/A");
}

#[test]
fn extract_reads_back_what_was_written() {
    for (tag, value) in [("sunspots", "  97 "), ("xray", "C1.2"), ("k", ""), ("", "v"), ("band", " a<b> </ban ")] {
        let line = format!("<{}>{}</{}>", tag, value, tag);
        assert_eq!(extract_tag(&line, tag), value.trim());
    }
}

#[test]
fn extract_result_is_trimmed() {
    let r = extract_tag("<xray>\u{3000} M2 \t</xray>", "xray");
    assert_eq!(r, "M2");
    assert_eq!(r.trim(), r);
}

#[test]
fn full_feed() {
    assert!(feed_accepted(FEED));
    let d = solar_from_feed(FEED);
    assert_eq!(d.sfi, "150");
    assert_eq!(d.sn, "120");
    assert_eq!(d.a_index, "8");
    assert_eq!(d.k_index, "2");
    assert_eq!(d.x_ray, "B5.4");
    assert_eq!(
        d.band_conditions,
        vec![
            ("80m-40m".to_string(), "Fair".to_string()),
            ("30m-20m".to_string(), "Good".to_string()),
            ("80m-40m".to_string(), "Poor".to_string()),
        ]
    );
}

#[test]
fn empty_feed_gives_default() {
    let d = solar_from_feed("");
    let e = SolarData::default();
    assert_eq!(d.sfi, e.sfi);
    assert_eq!(d.sfi, "");
    assert!(d.band_conditions.is_empty());
}

#[test]
fn later_lines_overwrite_earlier_ones() {
    let d = solar_from_feed("<xray>A1</xray>\n<xray>B2</xray>\n");
    assert_eq!(d.x_ray, "B2");
}

#[test]
fn first_marker_on_a_line_decides() {
    let d = solar_from_feed("<sunspots>5</sunspots><solarflux>70</solarflux>");
    assert_eq!(d.sfi, "70");
    assert_eq!(d.sn, "");
}

#[test]
fn band_line_without_quoted_name_is_skipped() {
    let d = solar_from_feed("<band name=80m>Good</band>\n<band name=\"6m\">Poor</band>");
    assert_eq!(d.band_conditions, vec![("6m".to_string(), "Poor".to_string())]);
}

#[test]
fn missing_value_reads_not_available() {
    let d = solar_from_feed("<kindex>4\n");
    assert_eq!(d.k_index, "N/A");
}

#[test]
fn tag_cut_the_wrong_way_round_is_refused() {
    assert!(!feed_accepted("<xray>A1</xray>\n</xray><xray>\n"));
    assert!(feed_accepted("<xray>A1</xray>\n"));
}

#[test]
fn band_conditions_only_grow() {
    let first = "<band name=\"40m\">Good</band>\n";
    let more = "<xray>C1</xray>\n<band name=\"20m\">Fair</band>\n";
    let a = solar_from_feed(first);
    let b = solar_from_feed(&format!("{}{}", first, more));
    assert_eq!(a.band_conditions.len(), 1);
    assert_eq!(b.band_conditions[..1], a.band_conditions[..]);
    assert_eq!(b.band_conditions[1], ("20m".to_string(), "Fair".to_string()));
}
