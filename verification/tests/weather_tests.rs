use local_ham_dashboard::weather::{humidity_text, weather_panel, WeatherData};

#[test]
fn humidity_in_percent() {
    assert_eq!(humidity_text(45), "45%");
    assert_eq!(humidity_text(0), "0%");
    assert_eq!(humidity_text(-3), "-3%");
    assert_eq!(humidity_text(i32::MIN), format!("{}%", i32::MIN));
}

#[test]
fn weather_panel_text() {
    let w = WeatherData {
        temperature: "71.2°F".to_string(),
        humidity: "45%".to_string(),
        wind_chill: "70.0°F".to_string(),
    };
    assert_eq!(w.panel_text(), "Temp:  71.2°F\nHum:   45%\nChill: 70.0°F");
}

#[test]
fn weather_panel_before_and_after_data() {
    assert_eq!(weather_panel(&None), "Loading Weather...");
    let w = WeatherData {
        temperature: "50.0°F".to_string(),
        humidity: "80%".to_string(),
        wind_chill: "47.5°F".to_string(),
    };
    assert_eq!(weather_panel(&Some(w.clone())), w.panel_text());
}
