//! Where temperatures come from, and how long they are kept.
use crate::config::TempCfg;
use crate::quantity::Quantity;
use crate::text::same_text;
use vstd::prelude::*;

verus! {

/// A source of temperatures.
#[derive(Clone, Copy, Debug, PartialEq)]
pub enum TemperatureSource {
    /// A fixed temperature.
    StaticTemp(Quantity),
    /// The forecast for a place.
    OpenMeteo { lat: Quantity, lon: Quantity },
}

/// The source that a configuration asks for: a fixed temperature when the
/// source is static and one is given, and the forecast otherwise.
pub open spec fn source_for(
    source: Seq<char>,
    lat: Quantity,
    lon: Quantity,
    static_c: Option<Quantity>,
) -> TemperatureSource {
    match static_c {
        Some(c) => if source == "static"@ {
            TemperatureSource::StaticTemp(c)
        } else {
            TemperatureSource::OpenMeteo { lat, lon }
        },
        None => TemperatureSource::OpenMeteo { lat, lon },
    }
}

/// The source that a configuration asks for.
pub fn create_temperature_source(cfg: &TempCfg) -> (res: TemperatureSource)
    ensures
        res == source_for(cfg.source@, cfg.lat, cfg.lon, cfg.static_c),
{
    if same_text(cfg.source.as_str(), "static") {
        if let Some(c) = cfg.static_c {
            return TemperatureSource::StaticTemp(c);
        }
    }
    TemperatureSource::OpenMeteo { lat: cfg.lat, lon: cfg.lon }
}

/// The address of the forecast for coordinates that are given as texts.
pub open spec fn forecast_url(lat: Seq<char>, lon: Seq<char>) -> Seq<char> {
    "https://api.open-meteo.com/v1/forecast?latitude="@ + lat + "&longitude="@ + lon
        + "&current=temperature_2m"@
}

/// The address of the forecast for coordinates that are given as texts.
pub fn url(lat: &str, lon: &str) -> (res: String)
    ensures
        res@ == forecast_url(lat@, lon@),
{
    let mut res = "https://api.open-meteo.com/v1/forecast?latitude=".to_owned();
    res.append(lat);
    res.append("&longitude=");
    res.append(lon);
    res.append("&current=temperature_2m");
    res
}

/// How long a temperature is kept, in nanoseconds.
pub const CACHE_TTL: u128 = 300_000_000_000;

/// The last temperature that was fetched, and when. Instants are in nanoseconds
/// of some clock that does not go back.
#[derive(Clone, Copy, Debug)]
pub struct TempCache {
    pub entry: Option<(Quantity, u128)>,
}

impl TempCache {
    /// The temperature that may still be used at an instant.
    pub open spec fn usable(self, now: u128) -> Option<Quantity> {
        match self.entry {
            Some((temp, fetched_at)) => if now - fetched_at < CACHE_TTL {
                Some(temp)
            } else {
                None
            },
            None => None,
        }
    }

    /// An empty cache.
    pub fn new() -> (res: TempCache)
        ensures
            res.entry is None,
    {
        TempCache { entry: None }
    }

    /// The temperature that may be used without fetching one.
    pub fn lookup(&self, now: u128) -> (res: Option<Quantity>)
        ensures
            res == self.usable(now),
    {
        match self.entry {
            Some((temp, fetched_at)) => if now < fetched_at || now - fetched_at < CACHE_TTL {
                Some(temp)
            } else {
                None
            },
            None => None,
        }
    }

    /// Keeps a temperature that was fetched.
    pub fn store(&mut self, temp: Quantity, now: u128)
        ensures
            *final(self) == (TempCache { entry: Some((temp, now)) }),
    {
        self.entry = Some((temp, now));
    }
}

/// A temperature that was kept is used for five minutes, and not after that.
pub proof fn law_cache(temp: Quantity, fetched_at: u128, now: u128)
    requires
        now >= fetched_at,
    ensures
        (TempCache { entry: Some((temp, fetched_at)) }).usable(now) == if now < fetched_at
            + CACHE_TTL {
            Some(temp)
        } else {
            None
        },
{
}

/// A temperature that was kept is used for five minutes, counted in nanoseconds,
/// and not after that; an empty cache has none.
pub proof fn law_cache_lasts_five_minutes(temp: Quantity, fetched_at: u128, now: u128)
    ensures
        now < fetched_at + 300_000_000_000 ==> (TempCache {
            entry: Some((temp, fetched_at)),
        }).usable(now) == Some(temp),
        now >= fetched_at + 300_000_000_000 ==> (TempCache {
            entry: Some((temp, fetched_at)),
        }).usable(now) is None,
        (TempCache { entry: None }).usable(now) is None,
{
}

/// A fixed temperature is used exactly when the source is static and one is given;
/// otherwise the forecast for the place is.
pub proof fn law_source(
    source: Seq<char>,
    lat: Quantity,
    lon: Quantity,
    static_c: Option<Quantity>,
)
    ensures
        source == "static"@ && static_c is Some ==> source_for(source, lat, lon, static_c)
            == TemperatureSource::StaticTemp(static_c->0),
        source != "static"@ || static_c is None ==> source_for(source, lat, lon, static_c) == (
        TemperatureSource::OpenMeteo { lat, lon }),
{
}

/// The address of the forecast names the latitude before the longitude.
pub proof fn law_forecast_url(lat: Seq<char>, lon: Seq<char>)
    ensures
        forecast_url(lat, lon) == seq![
            "https://api.open-meteo.com/v1/forecast"@,
            "?latitude="@ + lat,
            "&longitude="@ + lon,
            "&current=temperature_2m"@,
        ].flatten(),
{
    assert("https://api.open-meteo.com/v1/forecast?latitude="@
        == "https://api.open-meteo.com/v1/forecast"@ + "?latitude="@) by {
        reveal_strlit("https://api.open-meteo.com/v1/forecast?latitude=");
        reveal_strlit("https://api.open-meteo.com/v1/forecast");
        reveal_strlit("?latitude=");
    }
    let e = Seq::<Seq<char>>::empty();
    let host = "https://api.open-meteo.com/v1/forecast"@;
    let a = e.push(host);
    let b = a.push("?latitude="@ + lat);
    let c = b.push("&longitude="@ + lon);
    let d = c.push("&current=temperature_2m"@);
    e.lemma_flatten_push(host);
    assert(a.flatten() == host);
    a.lemma_flatten_push("?latitude="@ + lat);
    b.lemma_flatten_push("&longitude="@ + lon);
    c.lemma_flatten_push("&current=temperature_2m"@);
    assert(host + "?latitude="@ + lat == host + ("?latitude="@ + lat));
    assert(b.flatten() + "&longitude="@ + lon == b.flatten() + ("&longitude="@ + lon));
    assert(d == seq![
        host,
        "?latitude="@ + lat,
        "&longitude="@ + lon,
        "&current=temperature_2m"@,
    ]);
}

} // verus!
