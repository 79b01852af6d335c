//! Timezones: lookup by IANA name, the host's own zone, UTC offsets, and listing the zones.
use crate::calendar::{MAX_SECONDS, MIN_SECONDS};
use crate::error::{
    invalid_timezone_message, local_zone_message, zero_zones_message, DtgError, INVALID_TIMEZONE,
    LOCAL_ZONE_UNAVAILABLE, ZERO_ZONES_FOUND,
};
use crate::text::{contains_seq, contains_text, opt_str_view, text_eq};
use chrono::{Offset, TimeZone, Utc};
use chrono_tz::Tz;
use vstd::prelude::*;

verus! {

/// Whether the timezone database knows a zone by this exact name.
pub uninterp spec fn zone_known(name: Seq<char>) -> bool;

/// The offset, in seconds east of UTC, that the named zone applies at a UNIX timestamp.
pub uninterp spec fn zone_offset(name: Seq<char>, secs: int) -> int;

/// The lowercase form of a text.
pub uninterp spec fn lower_of(s: Seq<char>) -> Seq<char>;

/// Relies on chrono-tz's `FromStr for Tz`: whether the name is one of the database's zones.
#[verifier::external_body]
fn is_zone_name(name: &str) -> (r: bool)
    ensures
        r == zone_known(name@),
{
    name.parse::<Tz>().is_ok()
}

/// Relies on iana-time-zone's `get_timezone`: the host's zone name, where it can be found.
#[verifier::external_body]
fn host_zone_name() -> Option<String> {
    iana_time_zone::get_timezone().ok()
}

/// Relies on chrono-tz's `TimeZone::offset_from_utc_datetime` for `Tz`, read through
/// `Offset::fix` and `FixedOffset::local_minus_utc`: the zone's offset at a timestamp, which
/// a `FixedOffset` keeps within a day.
#[verifier::external_body]
pub(crate) fn utc_offset(name: &str, secs: i64) -> (r: i32)
    requires
        zone_known(name@),
        MIN_SECONDS <= secs <= MAX_SECONDS,
    ensures
        r == zone_offset(name@, secs as int),
        -86400 < r < 86400,
{
    let zone: Tz = name.parse().unwrap();
    let utc = Utc.timestamp_opt(secs, 0).unwrap().naive_utc();
    zone.offset_from_utc_datetime(&utc).fix().local_minus_utc()
}

/// The names of the timezone database's zones, in its order.
pub uninterp spec fn zone_database(u: ()) -> Seq<Seq<char>>;

/// Relies on chrono-tz's `TZ_VARIANTS` and `Tz::name`: the names of the database's zones, in
/// its order, a table compiled into the crate.
#[verifier::external_body]
fn database_zone_names() -> (r: Vec<String>)
    ensures
        texts(r@) == zone_database(()),
{
    let mut names = Vec::new();
    for zone in chrono_tz::TZ_VARIANTS.iter() {
        names.push(zone.name().to_string());
    }
    names
}

/// Relies on std's `str::to_lowercase`: the lowercase mapping, which depends on the text alone.
#[verifier::external_body]
fn lowercase(s: &str) -> (r: String)
    ensures
        r@ == lower_of(s@),
{
    s.to_lowercase()
}

/// A timezone of the database, known by its name.
#[derive(Debug)]
pub struct Zone {
    name: String,
}

impl View for Zone {
    type V = Seq<char>;

    closed spec fn view(&self) -> Seq<char> {
        self.name@
    }
}

impl Zone {
    #[verifier::type_invariant]
    spec fn is_known(&self) -> bool {
        zone_known(self.name@)
    }

    /// The zone's name.
    pub fn name(&self) -> (r: &str)
        ensures
            r@ == self@,
            zone_known(r@),
    {
        proof {
            use_type_invariant(self);
        }
        self.name.as_str()
    }
}

impl Clone for Zone {
    fn clone(&self) -> (r: Zone)
        ensures
            r@ == self@,
    {
        proof {
            use_type_invariant(self);
        }
        Zone { name: self.name.clone() }
    }
}

/// The zone that a name resolves to, or the error that says it is none.
pub open spec fn named_zone_result(name: Seq<char>, r: Result<Zone, DtgError>) -> bool {
    match r {
        Ok(z) => zone_known(name) && z@ == name,
        Err(e) => !zone_known(name) && e.is(INVALID_TIMEZONE, invalid_timezone_message(name)),
    }
}

/// The zone of the database with this exact name.
pub fn zone_named(name: &str) -> (r: Result<Zone, DtgError>)
    ensures
        named_zone_result(name@, r),
{
    if is_zone_name(name) {
        Ok(Zone { name: name.to_string() })
    } else {
        Err(DtgError::invalid_timezone(name))
    }
}

/// The zone that the host reports, given what it reported: `None` when it reported nothing.
pub fn resolve_local(found: Option<&str>) -> (r: Result<Zone, DtgError>)
    ensures
        found is None ==> (r matches Err(e) && e.is(LOCAL_ZONE_UNAVAILABLE, local_zone_message())),
        found matches Some(n) ==> named_zone_result(n@, r),
{
    match found {
        Some(n) => zone_named(n),
        None => Err(DtgError::local_zone_unavailable()),
    }
}

/// Get a timezone by name; `"local"` asks the host for its zone.
pub fn tz(s: &str) -> (r: Result<Zone, DtgError>)
    ensures
        s@ != "local"@ ==> named_zone_result(s@, r),
        s@ == "local"@ ==> match r {
            Ok(z) => zone_known(z@),
            Err(e) => e.code == LOCAL_ZONE_UNAVAILABLE || e.code == INVALID_TIMEZONE,
        },
{
    if text_eq(s, "local") {
        let found = host_zone_name();
        match found {
            Some(n) => resolve_local(Some(n.as_str())),
            None => resolve_local(None),
        }
    } else {
        zone_named(s)
    }
}

/// Zones that a listing shows: not the leap-second `right/` copies, `Factory` or `posixrules`.
pub open spec fn is_listed_zone(name: Seq<char>) -> bool {
    &&& !(name.len() >= 6 && name.take(6) == "right/"@)
    &&& name != "Factory"@
    &&& name != "posixrules"@
}

/// Whether a listed zone's name holds the search term, ignoring case; an absent or empty
/// term matches every listed zone.
pub open spec fn zone_matches(name: Seq<char>, search: Option<Seq<char>>) -> bool {
    is_listed_zone(name) && match search {
        None => true,
        Some(t) => t.len() == 0 || contains_seq(lower_of(name), lower_of(t)),
    }
}

/// The names among `names` that match the search, in their order.
pub open spec fn matching_zones(names: Seq<Seq<char>>, search: Option<Seq<char>>) -> Seq<
    Seq<char>,
>
    decreases names.len(),
{
    if names.len() == 0 {
        Seq::empty()
    } else {
        let rest = matching_zones(names.drop_last(), search);
        if zone_matches(names.last(), search) {
            rest.push(names.last())
        } else {
            rest
        }
    }
}

pub open spec fn texts(v: Seq<String>) -> Seq<Seq<char>> {
    v.map_values(|s: String| s@)
}

/// The name of a zone that may be absent.
pub open spec fn zone_view(zone: Option<Zone>) -> Option<Seq<char>> {
    match zone {
        Some(z) => Some(z@),
        None => None,
    }
}

/// The result of a search over `names`: the matching names, or the error for a non-empty term
/// that matched none.
pub open spec fn search_result(
    names: Seq<Seq<char>>,
    search: Option<Seq<char>>,
    r: Result<Vec<String>, DtgError>,
) -> bool {
    let kept = matching_zones(names, search);
    let fails = search matches Some(t) && t.len() > 0 && kept.len() == 0;
    match r {
        Ok(v) => !fails && texts(v@) == kept,
        Err(e) => fails && e.is(ZERO_ZONES_FOUND, zero_zones_message(search.unwrap())),
    }
}

/// Whether a zone name is one that listings show.
pub fn is_listed(name: &str) -> (r: bool)
    ensures
        r == is_listed_zone(name@),
{
    let cs = crate::text::chars_of(name);
    let right = cs.len() >= 6 && cs[0] == 'r' && cs[1] == 'i' && cs[2] == 'g' && cs[3] == 'h'
        && cs[4] == 't' && cs[5] == '/';
    proof {
        reveal_strlit("right/");
        let head = name@.take(6);
        if cs.len() >= 6 {
            if right {
                assert(head =~= "right/"@);
            } else if head == "right/"@ {
                assert(head[0] == 'r' && head[1] == 'i' && head[2] == 'g');
                assert(head[3] == 'h' && head[4] == 't' && head[5] == '/');
            }
        }
    }
    !right && !text_eq(name, "Factory") && !text_eq(name, "posixrules")
}

/// Keeps, in order, the names that match the search; fails for a non-empty term that matched
/// none.
pub fn search_zones(names: &Vec<String>, search: Option<&str>) -> (r: Result<Vec<String>, DtgError>)
    ensures
        search_result(texts(names@), opt_str_view(search), r),
{
    let ghost all = texts(names@);
    let ghost key = opt_str_view(search);
    let term: Option<String> = match search {
        Some(t) => if t.unicode_len() > 0 {
            Some(lowercase(t))
        } else {
            None
        },
        None => None,
    };
    let mut kept: Vec<String> = Vec::new();
    let mut i: usize = 0;
    while i < names.len()
        invariant
            all == texts(names@),
            key == opt_str_view(search),
            i <= names.len(),
            term matches Some(t) ==> (key matches Some(k) && k.len() > 0 && t@ == lower_of(k)),
            term is None ==> key is None || key.unwrap().len() == 0,
            texts(kept@) == matching_zones(all.take(i as int), key),
        decreases names.len() - i,
    {
        let name = names[i].as_str();
        let keep = is_listed(name) && match &term {
            Some(t) => contains_text(lowercase(name).as_str(), t.as_str()),
            None => true,
        };
        proof {
            assert(all.take(i + 1).drop_last() =~= all.take(i as int));
            assert(all.take(i + 1).last() == name@);
            assert(keep == zone_matches(name@, key));
        }
        if keep {
            kept.push(names[i].clone());
        }
        i = i + 1;
        assert(texts(kept@) =~= matching_zones(all.take(i as int), key));
    }
    assert(all.take(i as int) =~= all);
    match search {
        Some(t) => {
            if kept.len() == 0 && t.unicode_len() > 0 {
                return Err(DtgError::zero_zones_found(t));
            }
        },
        None => {},
    }
    Ok(kept)
}

/// Lists the database's zones, or those whose name holds the search term, ignoring case.
pub fn list_zones(search: Option<&str>) -> (r: Result<Vec<String>, DtgError>)
    ensures
        search_result(zone_database(()), opt_str_view(search), r),
        r matches Ok(v) ==> forall|i: int|
            0 <= i < v.len() ==> zone_matches(#[trigger] v@[i]@, opt_str_view(search)),
{
    let names = database_zone_names();
    let r = search_zones(&names, search);
    proof {
        if r is Ok {
            lemma_matching_zones_match(texts(names@), opt_str_view(search));
            assert forall|i: int| 0 <= i < r.unwrap().len() implies zone_matches(
                #[trigger] r.unwrap()@[i]@,
                opt_str_view(search),
            ) by {
                assert(texts(r.unwrap()@)[i] == r.unwrap()@[i]@);
            }
        }
    }
    r
}

proof fn lemma_matching_zones_match(names: Seq<Seq<char>>, search: Option<Seq<char>>)
    ensures
        forall|i: int|
            0 <= i < matching_zones(names, search).len() ==> zone_matches(
                #[trigger] matching_zones(names, search)[i],
                search,
            ),
    decreases names.len(),
{
    if names.len() > 0 {
        lemma_matching_zones_match(names.drop_last(), search);
        let rest = matching_zones(names.drop_last(), search);
        let all = matching_zones(names, search);
        assert forall|i: int| 0 <= i < all.len() implies zone_matches(#[trigger] all[i], search) by {
            if i < rest.len() {
                assert(all[i] == rest[i]);
            }
        }
    }
}

} // verus!
