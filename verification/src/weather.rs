//! Current weather, as the dashboard shows it.
use vstd::prelude::*;
use vstd::string::StringExecFns;
use crate::text::{chars_of, concat_chars, int_chars, int_text, string_of};

verus! {

broadcast use vstd::string::group_string_axioms;

/// The current weather, each reading already in the words the dashboard shows.
#[derive(Debug, Clone)]
pub struct WeatherData {
    pub temperature: String,
    pub humidity: String,
    pub wind_chill: String,
}

impl Default for WeatherData {
    fn default() -> (r: WeatherData)
        ensures
            r.temperature@.len() == 0,
            r.humidity@.len() == 0,
            r.wind_chill@.len() == 0,
    {
        WeatherData { temperature: String::new(), humidity: String::new(), wind_chill: String::new() }
    }
}

/// The relative humidity `percent` as the dashboard shows it: the number, then `%`.
pub fn humidity_text(percent: i32) -> (r: String)
    ensures
        r@ == int_text(percent as int) + "%"@,
{
    let digits = int_chars(percent as i64);
    let pct = chars_of("%");
    string_of(concat_chars(&digits, &pct).as_slice())
}

impl WeatherData {
    /// The weather panel: temperature, humidity and wind chill, one per line.
    pub fn panel_text(&self) -> (r: String)
        ensures
            r@ == "Temp:  "@ + self.temperature@ + "\nHum:   "@ + self.humidity@ + "\nChill: "@
                + self.wind_chill@,
    {
        let r = "Temp:  ".to_owned();
        let r = r.concat(self.temperature.as_str());
        let r = r.concat("\nHum:   ");
        let r = r.concat(self.humidity.as_str());
        let r = r.concat("\nChill: ");
        r.concat(self.wind_chill.as_str())
    }
}

/// The weather panel's text for a reading: its three lines.
pub open spec fn weather_text(w: WeatherData) -> Seq<char> {
    "Temp:  "@ + w.temperature@ + "\nHum:   "@ + w.humidity@ + "\nChill: "@ + w.wind_chill@
}

/// The weather panel: the reading's three lines, or `Loading Weather...` before the
/// first reading has come.
pub fn weather_panel(weather: &Option<WeatherData>) -> (r: String)
    ensures
        weather matches Some(w) ==> r@ == weather_text(*w),
        weather is None ==> r@ == "Loading Weather..."@,
{
    match weather {
        Some(w) => w.panel_text(),
        None => "Loading Weather...".to_owned(),
    }
}

} // verus!
