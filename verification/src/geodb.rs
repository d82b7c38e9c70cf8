//! Filling in missing countries (and network names) of decisions and
//! addresses, from GeoIP lookups and from the countries recorded in the
//! alert history.

use vstd::prelude::*;
use crate::models::ActiveBan;
use crate::normaliser::{cidr24, to_cidr24};
use crate::text::{str_eq, to_owned_string, trim, trim_str};

verus! {

/// A country is missing when blank or `??`, and, where `unknown_too`, when
/// `unknown`.
pub open spec fn missing_country(country: Seq<char>, unknown_too: bool) -> bool {
    trim(country).len() == 0 || country == "??"@ || (unknown_too && country == "unknown"@)
}

fn missing_country_exec(country: &str, unknown_too: bool) -> (r: bool)
    ensures
        r == missing_country(country@, unknown_too),
{
    let t = trim_str(country);
    t.as_str().is_empty() || str_eq(country, "??") || (unknown_too && str_eq(country, "unknown"))
}

/// Whether a country still has to be looked up: blank, `??` or `unknown`.
pub fn country_is_missing(country: &str) -> (r: bool)
    ensures
        r == missing_country(country@, true),
{
    missing_country_exec(country, true)
}

/// A recorded country: the address, its /24 network and its country, as the
/// alert history holds them (newest first).
pub type CountryRow = (String, String, String);

/// The country of the first row whose column (`by_network`: the network,
/// else the address) is `key`.
pub open spec fn first_country(rows: Seq<CountryRow>, key: Seq<char>, by_network: bool) -> Option<
    Seq<char>,
>
    decreases rows.len(),
{
    if rows.len() == 0 {
        None
    } else if (if by_network {
        rows[0].1@
    } else {
        rows[0].0@
    }) == key {
        Some(rows[0].2@)
    } else {
        first_country(rows.drop_first(), key, by_network)
    }
}

/// The country the history gives a decision: by its address, else by its
/// value, else by the network of its address, else by that of its value.
pub open spec fn history_country(rows: Seq<CountryRow>, b: ActiveBan) -> Option<Seq<char>> {
    match first_country(rows, b.ip@, false) {
        Some(c) => Some(c),
        None => match first_country(rows, b.value@, false) {
            Some(c) => Some(c),
            None => match first_country(rows, cidr24(b.ip@), true) {
                Some(c) => Some(c),
                None => first_country(rows, cidr24(b.value@), true),
            },
        },
    }
}

fn find_country(rows: &Vec<CountryRow>, key: &str, by_network: bool) -> (r: Option<String>)
    ensures
        match r {
            Some(c) => first_country(rows@, key@, by_network) == Some(c@),
            None => first_country(rows@, key@, by_network) is None,
        },
{
    let mut i: usize = 0;
    assert(rows@.skip(0) =~= rows@);
    while i < rows.len()
        invariant
            i <= rows.len(),
            first_country(rows@.skip(i as int), key@, by_network) == first_country(
                rows@,
                key@,
                by_network,
            ),
        decreases rows.len() - i,
    {
        let ghost rest = rows@.skip(i as int);
        assert(rest[0] == rows@[i as int]);
        let hit = if by_network {
            str_eq(rows[i].1.as_str(), key)
        } else {
            str_eq(rows[i].0.as_str(), key)
        };
        if hit {
            return Some(to_owned_string(rows[i].2.as_str()));
        }
        assert(rest.drop_first() =~= rows@.skip(i + 1));
        i = i + 1;
    }
    None
}

/// The country a decision ends with: a GeoIP country fills a missing one;
/// then, where `rows` (the history) could be read, a country still missing
/// is taken from the history where it has one.
pub open spec fn enriched_country(
    b: ActiveBan,
    geo: Option<String>,
    rows: Option<Seq<CountryRow>>,
    unknown_too: bool,
) -> Seq<char> {
    let c1 = if missing_country(b.country@, unknown_too) && geo is Some {
        geo.unwrap()@
    } else {
        b.country@
    };
    match rows {
        Some(r) => if missing_country(c1, unknown_too) {
            match history_country(r, b) {
                Some(c) => c,
                None => c1,
            }
        } else {
            c1
        },
        None => c1,
    }
}

/// A country that is not missing is never replaced, and a missing one is
/// replaced by the GeoIP country whenever there is one.
pub proof fn known_countries_are_kept(
    b: ActiveBan,
    geo: Option<String>,
    rows: Option<Seq<CountryRow>>,
    unknown_too: bool,
)
    ensures
        !missing_country(b.country@, unknown_too) ==> enriched_country(b, geo, rows, unknown_too)
            == b.country@,
        missing_country(b.country@, unknown_too) && geo is Some && !missing_country(
            geo.unwrap()@,
            unknown_too,
        ) ==> enriched_country(b, geo, rows, unknown_too) == geo.unwrap()@,
{
}

/// `b` is `a` with its country changed to `country`.
pub open spec fn with_country(a: ActiveBan, b: ActiveBan, country: Seq<char>) -> bool {
    &&& b.id@ == a.id@
    &&& b.ip@ == a.ip@
    &&& b.value@ == a.value@
    &&& b.country@ == country
    &&& b.scenario@ == a.scenario@
    &&& b.origin@ == a.origin@
    &&& b.scope@ == a.scope@
    &&& b.duration@ == a.duration@
    &&& b.until@ == a.until@
    &&& b.ban_type@ == a.ban_type@
    &&& b.created_at@ == a.created_at@
}

fn enrich_countries(
    items: &mut Vec<ActiveBan>,
    geo: &Vec<Option<String>>,
    rows: Option<&Vec<CountryRow>>,
    unknown_too: bool,
)
    requires
        geo.len() == old(items).len(),
    ensures
        final(items).len() == old(items).len(),
        forall|j: int|
            0 <= j < final(items).len() ==> with_country(
                old(items)@[j],
                #[trigger] final(items)@[j],
                enriched_country(
                    old(items)@[j],
                    geo@[j],
                    match rows {
                        Some(r) => Some(r@),
                        None => None,
                    },
                    unknown_too,
                ),
            ),
{
    let ghost before = items@;
    let ghost rv = match rows {
        Some(r) => Some(r@),
        None => None::<Seq<CountryRow>>,
    };
    let mut i: usize = 0;
    while i < items.len()
        invariant
            i <= items.len() == before.len() == geo.len(),
            rv == match rows {
                Some(r) => Some(r@),
                None => None::<Seq<CountryRow>>,
            },
            forall|j: int|
                0 <= j < i ==> with_country(
                    before[j],
                    #[trigger] items@[j],
                    enriched_country(before[j], geo@[j], rv, unknown_too),
                ),
            forall|j: int| i <= j < items.len() ==> #[trigger] items@[j] == before[j],
        decreases items.len() - i,
    {
        let b = &items[i];
        let mut country = to_owned_string(b.country.as_str());
        if missing_country_exec(country.as_str(), unknown_too) {
            match &geo[i] {
                Some(g) => {
                    country = to_owned_string(g.as_str());
                },
                None => {},
            }
        }
        match rows {
            Some(r) => {
                if missing_country_exec(country.as_str(), unknown_too) {
                    let ip_cidr = to_cidr24(b.ip.as_str());
                    let value_cidr = to_cidr24(b.value.as_str());
                    let found = match find_country(r, b.ip.as_str(), false) {
                        Some(c) => Some(c),
                        None => match find_country(r, b.value.as_str(), false) {
                            Some(c) => Some(c),
                            None => match find_country(r, ip_cidr.as_str(), true) {
                                Some(c) => Some(c),
                                None => find_country(r, value_cidr.as_str(), true),
                            },
                        },
                    };
                    match found {
                        Some(c) => {
                            country = c;
                        },
                        None => {},
                    }
                }
            },
            None => {},
        }
        let updated = ActiveBan {
            id: to_owned_string(b.id.as_str()),
            ip: to_owned_string(b.ip.as_str()),
            value: to_owned_string(b.value.as_str()),
            country,
            scenario: to_owned_string(b.scenario.as_str()),
            origin: to_owned_string(b.origin.as_str()),
            scope: to_owned_string(b.scope.as_str()),
            duration: to_owned_string(b.duration.as_str()),
            until: to_owned_string(b.until.as_str()),
            ban_type: to_owned_string(b.ban_type.as_str()),
            created_at: to_owned_string(b.created_at.as_str()),
        };
        items.set(i, updated);
        i = i + 1;
    }
}

/// Fills in missing decision countries (blank, `??` or `unknown`): first
/// from `geo`, the GeoIP country of each decision's address; then, where the
/// history could be read (`rows`, newest first), from the country recorded
/// for its address, its value, or their /24 networks.
pub fn enrich_decision_countries(
    items: &mut Vec<ActiveBan>,
    geo: &Vec<Option<String>>,
    rows: Option<&Vec<CountryRow>>,
)
    requires
        geo.len() == old(items).len(),
    ensures
        final(items).len() == old(items).len(),
        forall|j: int|
            0 <= j < final(items).len() ==> with_country(
                old(items)@[j],
                #[trigger] final(items)@[j],
                enriched_country(
                    old(items)@[j],
                    geo@[j],
                    match rows {
                        Some(r) => Some(r@),
                        None => None,
                    },
                    true,
                ),
            ),
{
    enrich_countries(items, geo, rows, true)
}

/// The same, where a country of `unknown` counts as known (as the Decisions
/// view has it).
pub fn enrich_view_countries(
    items: &mut Vec<ActiveBan>,
    geo: &Vec<Option<String>>,
    rows: Option<&Vec<CountryRow>>,
)
    requires
        geo.len() == old(items).len(),
    ensures
        final(items).len() == old(items).len(),
        forall|j: int|
            0 <= j < final(items).len() ==> with_country(
                old(items)@[j],
                #[trigger] final(items)@[j],
                enriched_country(
                    old(items)@[j],
                    geo@[j],
                    match rows {
                        Some(r) => Some(r@),
                        None => None,
                    },
                    false,
                ),
            ),
{
    enrich_countries(items, geo, rows, false)
}

/// A network name is missing when blank or `unknown`.
pub open spec fn missing_as_name(as_name: Seq<char>) -> bool {
    trim(as_name).len() == 0 || as_name == "unknown"@
}

/// Fills in the country and network name of an address where they are
/// missing, from the GeoIP lookups `geo_country` and `geo_as_name`.
pub fn enrich_ip_history_fields(
    country: &mut String,
    as_name: &mut String,
    geo_country: Option<String>,
    geo_as_name: Option<String>,
)
    ensures
        final(country)@ == if missing_country(old(country)@, true) && geo_country is Some {
            geo_country.unwrap()@
        } else {
            old(country)@
        },
        final(as_name)@ == if missing_as_name(old(as_name)@) && geo_as_name is Some {
            geo_as_name.unwrap()@
        } else {
            old(as_name)@
        },
{
    if country_is_missing(country.as_str()) {
        match geo_country {
            Some(c) => {
                *country = c;
            },
            None => {},
        }
    }
    let t = trim_str(as_name.as_str());
    if t.as_str().is_empty() || str_eq(as_name.as_str(), "unknown") {
        match geo_as_name {
            Some(a) => {
                *as_name = a;
            },
            None => {},
        }
    }
}

/// Where the GeoIP database is downloaded from: the configured address, or
/// db-ip's free country file of the given month (`YYYY-MM`).
pub fn geoip_download_url(configured: Option<&str>, month: &str) -> (r: String)
    ensures
        r@ == match configured {
            Some(u) => u@,
            None => "https://download.db-ip.com/free/dbip-country-lite-"@ + month@ + ".mmdb.gz"@,
        },
{
    match configured {
        Some(u) => to_owned_string(u),
        None => {
            let mut r = to_owned_string("https://download.db-ip.com/free/dbip-country-lite-");
            crate::text::append_str(&mut r, month);
            crate::text::append_str(&mut r, ".mmdb.gz");
            r
        },
    }
}

/// Seconds in a week.
pub const GEOIP_MAX_AGE_SECONDS: u64 = 604_800;

/// A database file younger than a week (by whole seconds of age) is kept;
/// one of unknown age is not.
pub fn geoip_is_fresh(age_seconds: Option<u64>) -> (r: bool)
    ensures
        r == (age_seconds matches Some(a) && a < GEOIP_MAX_AGE_SECONDS),
{
    match age_seconds {
        Some(a) => a < GEOIP_MAX_AGE_SECONDS,
        None => false,
    }
}

/// A download, or what it unpacks to, is taken only when larger than a
/// kilobyte.
pub fn download_is_plausible(len: usize) -> (r: bool)
    ensures
        r == (len > 1024),
{
    len > 1024
}

} // verus!
