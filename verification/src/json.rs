//! Decoding of The Blue Alliance's JSON records into the library's types.
//!
//! One trusted wrapper parses a response body with `rustc_serialize` and
//! carries the parsed tree over, variant for variant, into the library's
//! own `JsonVal`; its result is named `parse_of`, a pure function of the
//! body.  Everything after that point is verified: each decoder is pinned
//! to a specification function over `JsonVal`, so what a well-shaped or a
//! malformed body yields is stated exactly.  An optional field decodes to
//! `None` when missing or null and fails the record when present with the
//! wrong type; a required field fails the record when missing as well.

use vstd::prelude::*;
use vstd::string::StringSliceAdditionalSpecFns;
use rustc_serialize::json::Json;
use crate::event::Event;
use crate::game::Game;
use crate::shared::{Alliance, Alliances};
use crate::team::Team;

verus! {

/// How decoding a response can fail: the body is too large to hand to the
/// parser, not JSON at all, or JSON of the wrong shape.
#[derive(Debug, PartialEq, Eq, Structural)]
pub enum TbaError {
    Oversize,
    Parse,
    Structure,
}

/// A parsed JSON value, owned by the library.  A JSON number that is not
/// an integer is kept only as its presence (`Float`): its value cannot be
/// represented here, and every record field of this library rejects it
/// anyway.  An object's members are (key, value) pairs with distinct keys,
/// in key order.
pub enum JsonVal {
    Null,
    Bool(bool),
    I64(i64),
    U64(u64),
    Float,
    Text(String),
    List(Vec<JsonVal>),
    Object(Vec<(String, JsonVal)>),
}

/// The parsed-JSON value of `rustc_serialize`, opaque to the verifier and
/// confined to the trusted conversion below.
#[verifier::external_type_specification]
#[verifier::external_body]
pub struct ExJson(Json);

/// The largest response body handed to the outside parser.  Its internal
/// key stack indexes the keys of the open objects with 16-bit offsets, so
/// a document whose object keys exceed that range makes it panic; as every
/// key byte comes from the input, bounding the input excludes the panic.
pub const MAX_BODY_BYTES: usize = 65_535;

/// What parsing a body yields: the parsed value for a well-formed JSON
/// document, nothing otherwise.  The parser is a pure function of the
/// body, so its result can be named.
pub uninterp spec fn parse_of(s: Seq<char>) -> Option<JsonVal>;

/// The unchecked tree conversion used by `parse_json` alone: every parsed
/// variant is carried over one for one; a float keeps only its presence.
#[verifier::external_body]
fn convert_json(j: Json) -> JsonVal {
    match j {
        Json::Null => JsonVal::Null,
        Json::Boolean(b) => JsonVal::Bool(b),
        Json::I64(n) => JsonVal::I64(n),
        Json::U64(n) => JsonVal::U64(n),
        Json::F64(_) => JsonVal::Float,
        Json::String(s) => JsonVal::Text(s),
        Json::Array(a) => JsonVal::List(a.into_iter().map(convert_json).collect()),
        Json::Object(o) => JsonVal::Object(
            o.into_iter().map(|(k, v)| (k, convert_json(v))).collect(),
        ),
    }
}

/// Relies on `rustc_serialize::json::Json::from_str`: parse one JSON
/// document.  The input bound keeps the parser's 16-bit key stack in
/// range (see `MAX_BODY_BYTES`); within it the parser returns `Ok` exactly
/// on well-formed documents and the conversion above carries the value
/// over.
#[verifier::external_body]
fn parse_json(s: &str) -> (r: Result<JsonVal, TbaError>)
    requires
        s.spec_bytes().len() <= MAX_BODY_BYTES,
    ensures
        r is Ok <==> parse_of(s@) is Some,
        r is Ok ==> r->Ok_0 == parse_of(s@).unwrap(),
        r is Err ==> r->Err_0 == TbaError::Parse,
{
    match Json::from_str(s) {
        Ok(j) => Ok(convert_json(j)),
        Err(_) => Err(TbaError::Parse),
    }
}

/// The value under `name` among an object's pairs: the first pair with
/// that key (keys are distinct, so the only one).
pub open spec fn field_of_pairs(s: Seq<(String, JsonVal)>, name: Seq<char>) -> Option<JsonVal>
    decreases s.len(),
{
    if s.len() == 0 {
        None
    } else if s[0].0@ == name {
        Some(s[0].1)
    } else {
        field_of_pairs(s.drop_first(), name)
    }
}

/// The value under `name`: `None` for a missing key or a non-object.
pub open spec fn field_of(j: JsonVal, name: Seq<char>) -> Option<JsonVal> {
    match j {
        JsonVal::Object(pairs) => field_of_pairs(pairs@, name),
        _ => None,
    }
}

proof fn lemma_field_of_pairs_first(s: Seq<(String, JsonVal)>, name: Seq<char>, i: int)
    requires
        0 <= i < s.len(),
        forall|k: int| 0 <= k < i ==> (#[trigger] s[k]).0@ != name,
        s[i].0@ == name,
    ensures
        field_of_pairs(s, name) == Some(s[i].1),
    decreases i,
{
    if i > 0 {
        let t = s.drop_first();
        assert(forall|k: int| 0 <= k < i - 1 ==> (#[trigger] t[k]).0@ != name);
        assert(t[i - 1] == s[i]);
        lemma_field_of_pairs_first(t, name, i - 1);
    }
}

proof fn lemma_field_of_pairs_none(s: Seq<(String, JsonVal)>, name: Seq<char>)
    requires
        forall|k: int| 0 <= k < s.len() ==> (#[trigger] s[k]).0@ != name,
    ensures
        field_of_pairs(s, name) is None,
    decreases s.len(),
{
    if s.len() > 0 {
        let t = s.drop_first();
        assert(forall|k: int| 0 <= k < t.len() ==> (#[trigger] t[k]).0@ != name);
        lemma_field_of_pairs_none(t, name);
    }
}

/// Look a field up in a parsed value.
fn get_field<'a>(j: &'a JsonVal, name: &str) -> (r: Option<&'a JsonVal>)
    ensures
        r is Some <==> field_of(*j, name@) is Some,
        r is Some ==> *r.unwrap() == field_of(*j, name@).unwrap(),
{
    match j {
        JsonVal::Object(pairs) => {
            let owned = name.to_owned();
            let n = pairs.len();
            let mut i: usize = 0;
            while i < n
                invariant
                    n == pairs@.len(),
                    i <= n,
                    owned@ == name@,
                    *j is Object,
                    (*j)->Object_0 == *pairs,
                    forall|k: int| 0 <= k < i ==> (#[trigger] pairs@[k]).0@ != name@,
                decreases n - i,
            {
                if pairs[i].0.eq(&owned) {
                    proof {
                        lemma_field_of_pairs_first(pairs@, name@, i as int);
                        assert(*j is Object);
                        assert((*j)->Object_0 == *pairs);
                        assert(field_of(*j, name@) == field_of_pairs(pairs@, name@));
                    }
                    return Some(&pairs[i].1);
                }
                i += 1;
            }
            proof {
                lemma_field_of_pairs_none(pairs@, name@);
                assert(*j is Object);
                assert((*j)->Object_0 == *pairs);
                assert(field_of(*j, name@) == field_of_pairs(pairs@, name@));
            }
            None
        },
        _ => None,
    }
}

/// A value as a non-negative integer, integer-typed JSON only.
pub open spec fn u64_of(j: JsonVal) -> Option<u64> {
    match j {
        JsonVal::U64(n) => Some(n),
        JsonVal::I64(n) => if n >= 0 {
            Some(n as u64)
        } else {
            None
        },
        _ => None,
    }
}

/// A value as a signed integer; an unsigned value at or above `i64::MAX`
/// is rejected, exactly as the outside parser's accessor classifies it.
pub open spec fn i64_of(j: JsonVal) -> Option<i64> {
    match j {
        JsonVal::I64(n) => Some(n),
        JsonVal::U64(n) => if n >= 0x7FFF_FFFF_FFFF_FFFF {
            None
        } else {
            Some(n as i64)
        },
        _ => None,
    }
}

fn val_u64(v: &JsonVal) -> (r: Option<u64>)
    ensures
        r == u64_of(*v),
{
    match v {
        JsonVal::U64(n) => Some(*n),
        JsonVal::I64(n) => {
            if *n >= 0 {
                Some(*n as u64)
            } else {
                None
            }
        },
        _ => None,
    }
}

fn val_i64(v: &JsonVal) -> (r: Option<i64>)
    ensures
        r == i64_of(*v),
{
    match v {
        JsonVal::I64(n) => Some(*n),
        JsonVal::U64(n) => {
            if *n >= 0x7FFF_FFFF_FFFF_FFFF {
                None
            } else {
                Some(*n as i64)
            }
        },
        _ => None,
    }
}

/// An optional string field: `None` when missing or null, the string when
/// present, a structure error when present with another type.
pub open spec fn string_field_of(j: JsonVal, name: Seq<char>) -> Result<Option<String>, TbaError> {
    match field_of(j, name) {
        None => Ok(None),
        Some(v) => match v {
            JsonVal::Null => Ok(None),
            JsonVal::Text(s) => Ok(Some(s)),
            _ => Err(TbaError::Structure),
        },
    }
}

fn opt_string_field(j: &JsonVal, name: &str) -> (r: Result<Option<String>, TbaError>)
    ensures
        r == string_field_of(*j, name@),
{
    match get_field(j, name) {
        None => Ok(None),
        Some(v) => match v {
            JsonVal::Null => Ok(None),
            JsonVal::Text(s) => Ok(Some(s.clone())),
            _ => Err(TbaError::Structure),
        },
    }
}

/// An optional boolean field, with the same missing/null/other-type rules.
pub open spec fn bool_field_of(j: JsonVal, name: Seq<char>) -> Result<Option<bool>, TbaError> {
    match field_of(j, name) {
        None => Ok(None),
        Some(v) => match v {
            JsonVal::Null => Ok(None),
            JsonVal::Bool(b) => Ok(Some(b)),
            _ => Err(TbaError::Structure),
        },
    }
}

fn opt_bool_field(j: &JsonVal, name: &str) -> (r: Result<Option<bool>, TbaError>)
    ensures
        r == bool_field_of(*j, name@),
{
    match get_field(j, name) {
        None => Ok(None),
        Some(v) => match v {
            JsonVal::Null => Ok(None),
            JsonVal::Bool(b) => Ok(Some(*b)),
            _ => Err(TbaError::Structure),
        },
    }
}

/// An optional `u16` field; an integer out of the `u16` range is a
/// structure error, not a silent truncation.
pub open spec fn u16_field_of(j: JsonVal, name: Seq<char>) -> Result<Option<u16>, TbaError> {
    match field_of(j, name) {
        None => Ok(None),
        Some(v) => if v is Null {
            Ok(None)
        } else {
            match u64_of(v) {
                Some(n) => if n <= u16::MAX {
                    Ok(Some(n as u16))
                } else {
                    Err(TbaError::Structure)
                },
                None => Err(TbaError::Structure),
            }
        },
    }
}

fn opt_u16_field(j: &JsonVal, name: &str) -> (r: Result<Option<u16>, TbaError>)
    ensures
        r == u16_field_of(*j, name@),
{
    match get_field(j, name) {
        None => Ok(None),
        Some(v) => {
            if matches!(v, JsonVal::Null) {
                Ok(None)
            } else {
                match val_u64(v) {
                    Some(n) => {
                        if n <= u16::MAX as u64 {
                            Ok(Some(n as u16))
                        } else {
                            Err(TbaError::Structure)
                        }
                    },
                    None => Err(TbaError::Structure),
                }
            }
        },
    }
}

/// An optional `u8` field, with the same range rule.
pub open spec fn u8_field_of(j: JsonVal, name: Seq<char>) -> Result<Option<u8>, TbaError> {
    match field_of(j, name) {
        None => Ok(None),
        Some(v) => if v is Null {
            Ok(None)
        } else {
            match u64_of(v) {
                Some(n) => if n <= u8::MAX {
                    Ok(Some(n as u8))
                } else {
                    Err(TbaError::Structure)
                },
                None => Err(TbaError::Structure),
            }
        },
    }
}

fn opt_u8_field(j: &JsonVal, name: &str) -> (r: Result<Option<u8>, TbaError>)
    ensures
        r == u8_field_of(*j, name@),
{
    match get_field(j, name) {
        None => Ok(None),
        Some(v) => {
            if matches!(v, JsonVal::Null) {
                Ok(None)
            } else {
                match val_u64(v) {
                    Some(n) => {
                        if n <= u8::MAX as u64 {
                            Ok(Some(n as u8))
                        } else {
                            Err(TbaError::Structure)
                        }
                    },
                    None => Err(TbaError::Structure),
                }
            }
        },
    }
}

/// A signed integer confined to the `isize` range.
pub open spec fn isize_of(j: JsonVal) -> Result<isize, TbaError> {
    match i64_of(j) {
        Some(n) => if isize::MIN <= n <= isize::MAX {
            Ok(n as isize)
        } else {
            Err(TbaError::Structure)
        },
        None => Err(TbaError::Structure),
    }
}

fn json_isize(v: &JsonVal) -> (r: Result<isize, TbaError>)
    ensures
        r == isize_of(*v),
{
    match val_i64(v) {
        Some(n) => {
            if n >= isize::MIN as i64 && n <= isize::MAX as i64 {
                Ok(n as isize)
            } else {
                Err(TbaError::Structure)
            }
        },
        None => Err(TbaError::Structure),
    }
}

/// An optional `isize` field.
pub open spec fn isize_field_of(j: JsonVal, name: Seq<char>) -> Result<Option<isize>, TbaError> {
    match field_of(j, name) {
        None => Ok(None),
        Some(v) => if v is Null {
            Ok(None)
        } else {
            match isize_of(v) {
                Ok(n) => Ok(Some(n)),
                Err(e) => Err(e),
            }
        },
    }
}

fn opt_isize_field(j: &JsonVal, name: &str) -> (r: Result<Option<isize>, TbaError>)
    ensures
        r == isize_field_of(*j, name@),
{
    match get_field(j, name) {
        None => Ok(None),
        Some(v) => {
            if matches!(v, JsonVal::Null) {
                Ok(None)
            } else {
                match json_isize(v) {
                    Ok(n) => Ok(Some(n)),
                    Err(e) => Err(e),
                }
            }
        },
    }
}

/// A roster element: a string, or nothing.
pub open spec fn string_of_val(v: JsonVal) -> Result<String, TbaError> {
    match v {
        JsonVal::Text(s) => Ok(s),
        _ => Err(TbaError::Structure),
    }
}

/// A required array of strings, as an alliance's roster is: every element
/// decoded left to right, the first failure failing the list.
pub open spec fn strings_of(s: Seq<JsonVal>) -> Result<Seq<String>, TbaError>
    decreases s.len(),
{
    if s.len() == 0 {
        Ok(Seq::empty())
    } else {
        match strings_of(s.drop_last()) {
            Err(e) => Err(e),
            Ok(pre) => match string_of_val(s.last()) {
                Err(e) => Err(e),
                Ok(a) => Ok(pre.push(a)),
            },
        }
    }
}

/// A string-list decoder only ever fails with the structure error.
proof fn lemma_strings_of_err(s: Seq<JsonVal>)
    ensures
        strings_of(s) is Err ==> strings_of(s) == Err::<Seq<String>, TbaError>(
            TbaError::Structure,
        ),
    decreases s.len(),
{
    if s.len() > 0 {
        lemma_strings_of_err(s.drop_last());
    }
}

/// One failing element fails the whole string list.
proof fn lemma_strings_of_bad(s: Seq<JsonVal>, i: int)
    requires
        0 <= i < s.len(),
        string_of_val(s[i]) is Err,
    ensures
        strings_of(s) == Err::<Seq<String>, TbaError>(TbaError::Structure),
    decreases s.len(),
{
    lemma_strings_of_err(s.drop_last());
    if i < s.len() - 1 {
        let t = s.drop_last();
        assert(t[i] == s[i]);
        lemma_strings_of_bad(t, i);
    }
}

fn string_array(arr: &Vec<JsonVal>) -> (r: Result<Vec<String>, TbaError>)
    ensures
        match r {
            Ok(v) => strings_of(arr@) == Ok::<Seq<String>, TbaError>(v@),
            Err(e) => strings_of(arr@) == Err::<Seq<String>, TbaError>(e),
        },
{
    let n = arr.len();
    let mut out: Vec<String> = Vec::new();
    let mut i: usize = 0;
    proof {
        assert(arr@.take(0) =~= Seq::<JsonVal>::empty());
    }
    while i < n
        invariant
            i <= n == arr@.len(),
            strings_of(arr@.take(i as int)) == Ok::<Seq<String>, TbaError>(out@),
        decreases n - i,
    {
        let ghost pre = out@;
        match arr[i] {
            JsonVal::Text(ref s) => out.push(s.clone()),
            _ => {
                proof {
                    lemma_strings_of_bad(arr@, i as int);
                }
                return Err(TbaError::Structure);
            },
        }
        proof {
            assert(arr@.take(i as int + 1).drop_last() =~= arr@.take(i as int));
            assert(arr@.take(i as int + 1).last() == arr@[i as int]);
            assert(out@ =~= pre.push(arr@[i as int]->Text_0));
        }
        i += 1;
    }
    proof {
        assert(arr@.take(n as int) =~= arr@);
    }
    Ok(out)
}

/// The mathematical shape of one side of a match.
pub struct AllianceRecord {
    pub score: isize,
    pub teams: Seq<String>,
}

/// The mathematical shape of both sides.
pub struct AlliancesRecord {
    pub red: AllianceRecord,
    pub blue: AllianceRecord,
}

/// The mathematical shape of a decoded match record.
pub struct GameRecord {
    pub key: Option<String>,
    pub comp_level: Option<String>,
    pub set_number: Option<u8>,
    pub match_number: Option<isize>,
    pub alliances: Option<AlliancesRecord>,
    pub event_key: Option<String>,
    pub time_string: Option<String>,
    pub time: Option<isize>,
}

/// The shape of an alliance value.
pub open spec fn alliance_view(a: Alliance) -> AllianceRecord {
    AllianceRecord { score: a.score, teams: a.teams@ }
}

/// The shape of an alliances value.
pub open spec fn alliances_view(a: Alliances) -> AlliancesRecord {
    AlliancesRecord { red: alliance_view(a.red), blue: alliance_view(a.blue) }
}

/// The shape of a match value.
pub open spec fn game_view(g: Game) -> GameRecord {
    GameRecord {
        key: g.key,
        comp_level: g.comp_level,
        set_number: g.set_number,
        match_number: g.match_number,
        alliances: match g.alliances {
            Some(a) => Some(alliances_view(a)),
            None => None,
        },
        event_key: g.event_key,
        time_string: g.time_string,
        time: g.time,
    }
}

/// One side of a match: both the score and the roster are required.
pub open spec fn alliance_of(j: JsonVal) -> Result<AllianceRecord, TbaError> {
    if !(j is Object) {
        Err(TbaError::Structure)
    } else {
        match field_of(j, "score"@) {
            None => Err(TbaError::Structure),
            Some(sv) => match isize_of(sv) {
                Err(e) => Err(e),
                Ok(score) => match field_of(j, "teams"@) {
                    None => Err(TbaError::Structure),
                    Some(tv) => match tv {
                        JsonVal::List(arr) => match strings_of(arr@) {
                            Err(e) => Err(e),
                            Ok(teams) => Ok(AllianceRecord { score, teams }),
                        },
                        _ => Err(TbaError::Structure),
                    },
                },
            },
        }
    }
}

fn decode_alliance(j: &JsonVal) -> (r: Result<Alliance, TbaError>)
    ensures
        match r {
            Ok(a) => alliance_of(*j) == Ok::<AllianceRecord, TbaError>(alliance_view(a)),
            Err(e) => alliance_of(*j) == Err::<AllianceRecord, TbaError>(e),
        },
{
    if !matches!(j, JsonVal::Object(_)) {
        return Err(TbaError::Structure);
    }
    let score = match get_field(j, "score") {
        Some(v) => match json_isize(v) {
            Ok(n) => n,
            Err(e) => {
                return Err(e);
            },
        },
        None => {
            return Err(TbaError::Structure);
        },
    };
    let teams = match get_field(j, "teams") {
        Some(v) => match v {
            JsonVal::List(arr) => match string_array(arr) {
                Ok(t) => t,
                Err(e) => {
                    return Err(e);
                },
            },
            _ => {
                return Err(TbaError::Structure);
            },
        },
        None => {
            return Err(TbaError::Structure);
        },
    };
    Ok(Alliance { score, teams })
}

/// Both sides of a match: red and blue are required.
pub open spec fn alliances_of(j: JsonVal) -> Result<AlliancesRecord, TbaError> {
    if !(j is Object) {
        Err(TbaError::Structure)
    } else {
        match field_of(j, "red"@) {
            None => Err(TbaError::Structure),
            Some(rv) => match alliance_of(rv) {
                Err(e) => Err(e),
                Ok(red) => match field_of(j, "blue"@) {
                    None => Err(TbaError::Structure),
                    Some(bv) => match alliance_of(bv) {
                        Err(e) => Err(e),
                        Ok(blue) => Ok(AlliancesRecord { red, blue }),
                    },
                },
            },
        }
    }
}

fn decode_alliances(j: &JsonVal) -> (r: Result<Alliances, TbaError>)
    ensures
        match r {
            Ok(a) => alliances_of(*j) == Ok::<AlliancesRecord, TbaError>(alliances_view(a)),
            Err(e) => alliances_of(*j) == Err::<AlliancesRecord, TbaError>(e),
        },
{
    if !matches!(j, JsonVal::Object(_)) {
        return Err(TbaError::Structure);
    }
    let red = match get_field(j, "red") {
        Some(v) => match decode_alliance(v) {
            Ok(a) => a,
            Err(e) => {
                return Err(e);
            },
        },
        None => {
            return Err(TbaError::Structure);
        },
    };
    let blue = match get_field(j, "blue") {
        Some(v) => match decode_alliance(v) {
            Ok(a) => a,
            Err(e) => {
                return Err(e);
            },
        },
        None => {
            return Err(TbaError::Structure);
        },
    };
    Ok(Alliances { red, blue })
}

/// A team record: every field is optional.
pub open spec fn team_of(j: JsonVal) -> Result<Team, TbaError> {
    if !(j is Object) {
        Err(TbaError::Structure)
    } else {
        match string_field_of(j, "website"@) {
            Err(e) => Err(e),
            Ok(website) => match string_field_of(j, "name"@) {
                Err(e) => Err(e),
                Ok(name) => match string_field_of(j, "locality"@) {
                    Err(e) => Err(e),
                    Ok(locality) => match string_field_of(j, "region"@) {
                        Err(e) => Err(e),
                        Ok(region) => match string_field_of(j, "country_name"@) {
                            Err(e) => Err(e),
                            Ok(country_name) => match string_field_of(j, "location"@) {
                                Err(e) => Err(e),
                                Ok(location) => match u16_field_of(j, "team_number"@) {
                                    Err(e) => Err(e),
                                    Ok(team_number) => match string_field_of(j, "key"@) {
                                        Err(e) => Err(e),
                                        Ok(key) => match string_field_of(j, "nickname"@) {
                                            Err(e) => Err(e),
                                            Ok(nickname) => match u16_field_of(
                                                j,
                                                "rookie_year"@,
                                            ) {
                                                Err(e) => Err(e),
                                                Ok(rookie_year) => Ok(
                                                    Team {
                                                        website,
                                                        name,
                                                        locality,
                                                        region,
                                                        country_name,
                                                        location,
                                                        team_number,
                                                        key,
                                                        nickname,
                                                        rookie_year,
                                                    },
                                                ),
                                            },
                                        },
                                    },
                                },
                            },
                        },
                    },
                },
            },
        }
    }
}

pub(crate) fn decode_team(j: &JsonVal) -> (r: Result<Team, TbaError>)
    ensures
        r == team_of(*j),
{
    if !matches!(j, JsonVal::Object(_)) {
        return Err(TbaError::Structure);
    }
    let website = match opt_string_field(j, "website") {
        Ok(v) => v,
        Err(e) => {
            return Err(e);
        },
    };
    let name = match opt_string_field(j, "name") {
        Ok(v) => v,
        Err(e) => {
            return Err(e);
        },
    };
    let locality = match opt_string_field(j, "locality") {
        Ok(v) => v,
        Err(e) => {
            return Err(e);
        },
    };
    let region = match opt_string_field(j, "region") {
        Ok(v) => v,
        Err(e) => {
            return Err(e);
        },
    };
    let country_name = match opt_string_field(j, "country_name") {
        Ok(v) => v,
        Err(e) => {
            return Err(e);
        },
    };
    let location = match opt_string_field(j, "location") {
        Ok(v) => v,
        Err(e) => {
            return Err(e);
        },
    };
    let team_number = match opt_u16_field(j, "team_number") {
        Ok(v) => v,
        Err(e) => {
            return Err(e);
        },
    };
    let key = match opt_string_field(j, "key") {
        Ok(v) => v,
        Err(e) => {
            return Err(e);
        },
    };
    let nickname = match opt_string_field(j, "nickname") {
        Ok(v) => v,
        Err(e) => {
            return Err(e);
        },
    };
    let rookie_year = match opt_u16_field(j, "rookie_year") {
        Ok(v) => v,
        Err(e) => {
            return Err(e);
        },
    };
    Ok(
        Team {
            website,
            name,
            locality,
            region,
            country_name,
            location,
            team_number,
            key,
            nickname,
            rookie_year,
        },
    )
}

/// An event record: every field is optional.
pub open spec fn event_of(j: JsonVal) -> Result<Event, TbaError> {
    if !(j is Object) {
        Err(TbaError::Structure)
    } else {
        match string_field_of(j, "key"@) {
            Err(e) => Err(e),
            Ok(key) => match string_field_of(j, "name"@) {
                Err(e) => Err(e),
                Ok(name) => match string_field_of(j, "short_name"@) {
                    Err(e) => Err(e),
                    Ok(short_name) => match string_field_of(j, "event_code"@) {
                        Err(e) => Err(e),
                        Ok(event_code) => match string_field_of(j, "event_type_string"@) {
                            Err(e) => Err(e),
                            Ok(event_type_string) => match isize_field_of(j, "event_type"@) {
                                Err(e) => Err(e),
                                Ok(event_type) => match string_field_of(
                                    j,
                                    "event_district_string"@,
                                ) {
                                    Err(e) => Err(e),
                                    Ok(event_district_string) => match isize_field_of(
                                        j,
                                        "event_district"@,
                                    ) {
                                        Err(e) => Err(e),
                                        Ok(event_district) => match isize_field_of(j, "year"@) {
                                            Err(e) => Err(e),
                                            Ok(year) => match string_field_of(j, "location"@) {
                                                Err(e) => Err(e),
                                                Ok(location) => match string_field_of(
                                                    j,
                                                    "venue_address"@,
                                                ) {
                                                    Err(e) => Err(e),
                                                    Ok(venue_address) => match string_field_of(
                                                        j,
                                                        "website"@,
                                                    ) {
                                                        Err(e) => Err(e),
                                                        Ok(website) => match bool_field_of(
                                                            j,
                                                            "official"@,
                                                        ) {
                                                            Err(e) => Err(e),
                                                            Ok(official) => Ok(
                                                                Event {
                                                                    key,
                                                                    name,
                                                                    short_name,
                                                                    event_code,
                                                                    event_type_string,
                                                                    event_type,
                                                                    event_district_string,
                                                                    event_district,
                                                                    year,
                                                                    location,
                                                                    venue_address,
                                                                    website,
                                                                    official,
                                                                },
                                                            ),
                                                        },
                                                    },
                                                },
                                            },
                                        },
                                    },
                                },
                            },
                        },
                    },
                },
            },
        }
    }
}

pub(crate) fn decode_event(j: &JsonVal) -> (r: Result<Event, TbaError>)
    ensures
        r == event_of(*j),
{
    if !matches!(j, JsonVal::Object(_)) {
        return Err(TbaError::Structure);
    }
    let key = match opt_string_field(j, "key") {
        Ok(v) => v,
        Err(e) => {
            return Err(e);
        },
    };
    let name = match opt_string_field(j, "name") {
        Ok(v) => v,
        Err(e) => {
            return Err(e);
        },
    };
    let short_name = match opt_string_field(j, "short_name") {
        Ok(v) => v,
        Err(e) => {
            return Err(e);
        },
    };
    let event_code = match opt_string_field(j, "event_code") {
        Ok(v) => v,
        Err(e) => {
            return Err(e);
        },
    };
    let event_type_string = match opt_string_field(j, "event_type_string") {
        Ok(v) => v,
        Err(e) => {
            return Err(e);
        },
    };
    let event_type = match opt_isize_field(j, "event_type") {
        Ok(v) => v,
        Err(e) => {
            return Err(e);
        },
    };
    let event_district_string = match opt_string_field(j, "event_district_string") {
        Ok(v) => v,
        Err(e) => {
            return Err(e);
        },
    };
    let event_district = match opt_isize_field(j, "event_district") {
        Ok(v) => v,
        Err(e) => {
            return Err(e);
        },
    };
    let year = match opt_isize_field(j, "year") {
        Ok(v) => v,
        Err(e) => {
            return Err(e);
        },
    };
    let location = match opt_string_field(j, "location") {
        Ok(v) => v,
        Err(e) => {
            return Err(e);
        },
    };
    let venue_address = match opt_string_field(j, "venue_address") {
        Ok(v) => v,
        Err(e) => {
            return Err(e);
        },
    };
    let website = match opt_string_field(j, "website") {
        Ok(v) => v,
        Err(e) => {
            return Err(e);
        },
    };
    let official = match opt_bool_field(j, "official") {
        Ok(v) => v,
        Err(e) => {
            return Err(e);
        },
    };
    Ok(
        Event {
            key,
            name,
            short_name,
            event_code,
            event_type_string,
            event_type,
            event_district_string,
            event_district,
            year,
            location,
            venue_address,
            website,
            official,
        },
    )
}

/// A match record: the alliances are optional as a whole, required in
/// shape when present.
pub open spec fn game_of(j: JsonVal) -> Result<GameRecord, TbaError> {
    if !(j is Object) {
        Err(TbaError::Structure)
    } else {
        match string_field_of(j, "key"@) {
            Err(e) => Err(e),
            Ok(key) => match string_field_of(j, "comp_level"@) {
                Err(e) => Err(e),
                Ok(comp_level) => match u8_field_of(j, "set_number"@) {
                    Err(e) => Err(e),
                    Ok(set_number) => match isize_field_of(j, "match_number"@) {
                        Err(e) => Err(e),
                        Ok(match_number) => {
                            let alliances_dec = match field_of(j, "alliances"@) {
                                None => Ok(None),
                                Some(av) => if av is Null {
                                    Ok(None)
                                } else {
                                    match alliances_of(av) {
                                        Ok(a) => Ok(Some(a)),
                                        Err(e) => Err(e),
                                    }
                                },
                            };
                            match alliances_dec {
                                Err(e) => Err(e),
                                Ok(alliances) => match string_field_of(j, "event_key"@) {
                                    Err(e) => Err(e),
                                    Ok(event_key) => match string_field_of(j, "time_string"@) {
                                        Err(e) => Err(e),
                                        Ok(time_string) => match isize_field_of(j, "time"@) {
                                            Err(e) => Err(e),
                                            Ok(time) => Ok(
                                                GameRecord {
                                                    key,
                                                    comp_level,
                                                    set_number,
                                                    match_number,
                                                    alliances,
                                                    event_key,
                                                    time_string,
                                                    time,
                                                },
                                            ),
                                        },
                                    },
                                },
                            }
                        },
                    },
                },
            },
        }
    }
}

pub(crate) fn decode_game(j: &JsonVal) -> (r: Result<Game, TbaError>)
    ensures
        match r {
            Ok(g) => game_of(*j) == Ok::<GameRecord, TbaError>(game_view(g)),
            Err(e) => game_of(*j) == Err::<GameRecord, TbaError>(e),
        },
{
    if !matches!(j, JsonVal::Object(_)) {
        return Err(TbaError::Structure);
    }
    let key = match opt_string_field(j, "key") {
        Ok(v) => v,
        Err(e) => {
            return Err(e);
        },
    };
    let comp_level = match opt_string_field(j, "comp_level") {
        Ok(v) => v,
        Err(e) => {
            return Err(e);
        },
    };
    let set_number = match opt_u8_field(j, "set_number") {
        Ok(v) => v,
        Err(e) => {
            return Err(e);
        },
    };
    let match_number = match opt_isize_field(j, "match_number") {
        Ok(v) => v,
        Err(e) => {
            return Err(e);
        },
    };
    let alliances = match get_field(j, "alliances") {
        None => None,
        Some(v) => {
            if matches!(v, JsonVal::Null) {
                None
            } else {
                match decode_alliances(v) {
                    Ok(a) => Some(a),
                    Err(e) => {
                        return Err(e);
                    },
                }
            }
        },
    };
    let event_key = match opt_string_field(j, "event_key") {
        Ok(v) => v,
        Err(e) => {
            return Err(e);
        },
    };
    let time_string = match opt_string_field(j, "time_string") {
        Ok(v) => v,
        Err(e) => {
            return Err(e);
        },
    };
    let time = match opt_isize_field(j, "time") {
        Ok(v) => v,
        Err(e) => {
            return Err(e);
        },
    };
    Ok(Game { key, comp_level, set_number, match_number, alliances, event_key, time_string, time })
}

/// A JSON array of team records: element by element, in order.
pub open spec fn team_list_of(s: Seq<JsonVal>) -> Result<Seq<Team>, TbaError>
    decreases s.len(),
{
    if s.len() == 0 {
        Ok(Seq::empty())
    } else {
        match team_list_of(s.drop_last()) {
            Err(e) => Err(e),
            Ok(pre) => match team_of(s.last()) {
                Err(e) => Err(e),
                Ok(a) => Ok(pre.push(a)),
            },
        }
    }
}

/// A JSON array of event records: element by element, in order.
pub open spec fn event_list_of(s: Seq<JsonVal>) -> Result<Seq<Event>, TbaError>
    decreases s.len(),
{
    if s.len() == 0 {
        Ok(Seq::empty())
    } else {
        match event_list_of(s.drop_last()) {
            Err(e) => Err(e),
            Ok(pre) => match event_of(s.last()) {
                Err(e) => Err(e),
                Ok(a) => Ok(pre.push(a)),
            },
        }
    }
}

/// A JSON array of match records: element by element, as their shapes.
pub open spec fn game_list_of(s: Seq<JsonVal>) -> Result<Seq<GameRecord>, TbaError>
    decreases s.len(),
{
    if s.len() == 0 {
        Ok(Seq::empty())
    } else {
        match game_list_of(s.drop_last()) {
            Err(e) => Err(e),
            Ok(pre) => match game_of(s.last()) {
                Err(e) => Err(e),
                Ok(a) => Ok(pre.push(a)),
            },
        }
    }
}

/// A team decoder only ever fails with the structure error.
proof fn lemma_team_of_err(v: JsonVal)
    ensures
        team_of(v) is Err ==> team_of(v) == Err::<Team, TbaError>(TbaError::Structure),
{
}

/// An event decoder only ever fails with the structure error.
proof fn lemma_event_of_err(v: JsonVal)
    ensures
        event_of(v) is Err ==> event_of(v) == Err::<Event, TbaError>(TbaError::Structure),
{
}

/// An alliance decoder only ever fails with the structure error.
proof fn lemma_alliance_of_err(v: JsonVal)
    ensures
        alliance_of(v) is Err ==> alliance_of(v) == Err::<AllianceRecord, TbaError>(
            TbaError::Structure,
        ),
{
    if v is Object {
        match field_of(v, "teams"@) {
            Some(tv) => match tv {
                JsonVal::List(arr) => {
                    lemma_strings_of_err(arr@);
                },
                _ => {},
            },
            None => {},
        }
    }
}

/// An alliances decoder only ever fails with the structure error.
proof fn lemma_alliances_of_err(v: JsonVal)
    ensures
        alliances_of(v) is Err ==> alliances_of(v) == Err::<AlliancesRecord, TbaError>(
            TbaError::Structure,
        ),
{
    if v is Object {
        match field_of(v, "red"@) {
            Some(rv) => {
                lemma_alliance_of_err(rv);
            },
            None => {},
        }
        match field_of(v, "blue"@) {
            Some(bv) => {
                lemma_alliance_of_err(bv);
            },
            None => {},
        }
    }
}

/// A match decoder only ever fails with the structure error.
proof fn lemma_game_of_err(v: JsonVal)
    ensures
        game_of(v) is Err ==> game_of(v) == Err::<GameRecord, TbaError>(TbaError::Structure),
{
    if v is Object {
        match field_of(v, "alliances"@) {
            Some(av) => {
                lemma_alliances_of_err(av);
            },
            None => {},
        }
    }
}

/// One failing element fails a team list.
proof fn lemma_team_list_of_bad(s: Seq<JsonVal>, i: int)
    requires
        0 <= i < s.len(),
        team_of(s[i]) is Err,
    ensures
        team_list_of(s) == Err::<Seq<Team>, TbaError>(TbaError::Structure),
    decreases s.len(),
{
    lemma_team_list_of_err(s.drop_last());
    lemma_team_of_err(s.last());
    if i < s.len() - 1 {
        let t = s.drop_last();
        assert(t[i] == s[i]);
        lemma_team_list_of_bad(t, i);
    }
}

/// A team-list decoder only ever fails with the structure error.
proof fn lemma_team_list_of_err(s: Seq<JsonVal>)
    ensures
        team_list_of(s) is Err ==> team_list_of(s) == Err::<Seq<Team>, TbaError>(
            TbaError::Structure,
        ),
    decreases s.len(),
{
    if s.len() > 0 {
        lemma_team_list_of_err(s.drop_last());
        lemma_team_of_err(s.last());
    }
}

/// One failing element fails an event list.
proof fn lemma_event_list_of_bad(s: Seq<JsonVal>, i: int)
    requires
        0 <= i < s.len(),
        event_of(s[i]) is Err,
    ensures
        event_list_of(s) == Err::<Seq<Event>, TbaError>(TbaError::Structure),
    decreases s.len(),
{
    lemma_event_list_of_err(s.drop_last());
    lemma_event_of_err(s.last());
    if i < s.len() - 1 {
        let t = s.drop_last();
        assert(t[i] == s[i]);
        lemma_event_list_of_bad(t, i);
    }
}

/// An event-list decoder only ever fails with the structure error.
proof fn lemma_event_list_of_err(s: Seq<JsonVal>)
    ensures
        event_list_of(s) is Err ==> event_list_of(s) == Err::<Seq<Event>, TbaError>(
            TbaError::Structure,
        ),
    decreases s.len(),
{
    if s.len() > 0 {
        lemma_event_list_of_err(s.drop_last());
        lemma_event_of_err(s.last());
    }
}

/// One failing element fails a match list.
proof fn lemma_game_list_of_bad(s: Seq<JsonVal>, i: int)
    requires
        0 <= i < s.len(),
        game_of(s[i]) is Err,
    ensures
        game_list_of(s) == Err::<Seq<GameRecord>, TbaError>(TbaError::Structure),
    decreases s.len(),
{
    lemma_game_list_of_err(s.drop_last());
    lemma_game_of_err(s.last());
    if i < s.len() - 1 {
        let t = s.drop_last();
        assert(t[i] == s[i]);
        lemma_game_list_of_bad(t, i);
    }
}

/// A match-list decoder only ever fails with the structure error.
proof fn lemma_game_list_of_err(s: Seq<JsonVal>)
    ensures
        game_list_of(s) is Err ==> game_list_of(s) == Err::<Seq<GameRecord>, TbaError>(
            TbaError::Structure,
        ),
    decreases s.len(),
{
    if s.len() > 0 {
        lemma_game_list_of_err(s.drop_last());
        lemma_game_of_err(s.last());
    }
}

pub(crate) fn decode_team_list(j: &JsonVal) -> (r: Result<Vec<Team>, TbaError>)
    ensures
        match r {
            Ok(v) => *j is List && team_list_of((*j)->List_0@) == Ok::<Seq<Team>, TbaError>(v@),
            Err(e) => (*j is List ==> team_list_of((*j)->List_0@) == Err::<Seq<Team>, TbaError>(e))
                && (!(*j is List) ==> e == TbaError::Structure),
        },
{
    match j {
        JsonVal::List(arr) => {
            let n = arr.len();
            let mut out: Vec<Team> = Vec::new();
            let mut i: usize = 0;
            proof {
                assert(arr@.take(0) =~= Seq::<JsonVal>::empty());
            }
            while i < n
                invariant
                    i <= n == arr@.len(),
                    *j is List,
                    (*j)->List_0 == *arr,
                    team_list_of(arr@.take(i as int)) == Ok::<Seq<Team>, TbaError>(out@),
                decreases n - i,
            {
                let ghost pre = out@;
                match decode_team(&arr[i]) {
                    Ok(t) => out.push(t),
                    Err(e) => {
                        proof {
                            lemma_team_of_err(arr@[i as int]);
                            lemma_team_list_of_bad(arr@, i as int);
                        }
                        return Err(e);
                    },
                }
                proof {
                    assert(arr@.take(i as int + 1).drop_last() =~= arr@.take(i as int));
                    assert(arr@.take(i as int + 1).last() == arr@[i as int]);
                }
                i += 1;
            }
            proof {
                assert(arr@.take(n as int) =~= arr@);
            }
            Ok(out)
        },
        _ => Err(TbaError::Structure),
    }
}

pub(crate) fn decode_event_list(j: &JsonVal) -> (r: Result<Vec<Event>, TbaError>)
    ensures
        match r {
            Ok(v) => *j is List && event_list_of((*j)->List_0@) == Ok::<Seq<Event>, TbaError>(v@),
            Err(e) => (*j is List ==> event_list_of((*j)->List_0@) == Err::<
                Seq<Event>,
                TbaError,
            >(e)) && (!(*j is List) ==> e == TbaError::Structure),
        },
{
    match j {
        JsonVal::List(arr) => {
            let n = arr.len();
            let mut out: Vec<Event> = Vec::new();
            let mut i: usize = 0;
            proof {
                assert(arr@.take(0) =~= Seq::<JsonVal>::empty());
            }
            while i < n
                invariant
                    i <= n == arr@.len(),
                    *j is List,
                    (*j)->List_0 == *arr,
                    event_list_of(arr@.take(i as int)) == Ok::<Seq<Event>, TbaError>(out@),
                decreases n - i,
            {
                match decode_event(&arr[i]) {
                    Ok(t) => out.push(t),
                    Err(e) => {
                        proof {
                            lemma_event_of_err(arr@[i as int]);
                            lemma_event_list_of_bad(arr@, i as int);
                        }
                        return Err(e);
                    },
                }
                proof {
                    assert(arr@.take(i as int + 1).drop_last() =~= arr@.take(i as int));
                    assert(arr@.take(i as int + 1).last() == arr@[i as int]);
                }
                i += 1;
            }
            proof {
                assert(arr@.take(n as int) =~= arr@);
            }
            Ok(out)
        },
        _ => Err(TbaError::Structure),
    }
}

pub(crate) fn decode_game_list(j: &JsonVal) -> (r: Result<Vec<Game>, TbaError>)
    ensures
        match r {
            Ok(v) => *j is List && game_list_of((*j)->List_0@) == Ok::<
                Seq<GameRecord>,
                TbaError,
            >(v@.map_values(|g: Game| game_view(g))),
            Err(e) => (*j is List ==> game_list_of((*j)->List_0@) == Err::<
                Seq<GameRecord>,
                TbaError,
            >(e)) && (!(*j is List) ==> e == TbaError::Structure),
        },
{
    match j {
        JsonVal::List(arr) => {
            let n = arr.len();
            let mut out: Vec<Game> = Vec::new();
            let mut i: usize = 0;
            proof {
                assert(arr@.take(0) =~= Seq::<JsonVal>::empty());
                assert(out@.map_values(|g: Game| game_view(g)) =~= Seq::<GameRecord>::empty());
            }
            while i < n
                invariant
                    i <= n == arr@.len(),
                    *j is List,
                    (*j)->List_0 == *arr,
                    game_list_of(arr@.take(i as int)) == Ok::<Seq<GameRecord>, TbaError>(
                        out@.map_values(|g: Game| game_view(g)),
                    ),
                decreases n - i,
            {
                let ghost pre = out@;
                match decode_game(&arr[i]) {
                    Ok(t) => out.push(t),
                    Err(e) => {
                        proof {
                            lemma_game_of_err(arr@[i as int]);
                            lemma_game_list_of_bad(arr@, i as int);
                        }
                        return Err(e);
                    },
                }
                proof {
                    assert(arr@.take(i as int + 1).drop_last() =~= arr@.take(i as int));
                    assert(arr@.take(i as int + 1).last() == arr@[i as int]);
                    assert(out@.map_values(|g: Game| game_view(g)) =~= pre.map_values(
                        |g: Game| game_view(g),
                    ).push(game_of(arr@[i as int])->Ok_0));
                }
                i += 1;
            }
            proof {
                assert(arr@.take(n as int) =~= arr@);
            }
            Ok(out)
        },
        _ => Err(TbaError::Structure),
    }
}

/// Parse a response body into the library's JSON value: the oversize
/// error beyond `MAX_BODY_BYTES`, the parse error for a body that is not
/// a JSON document, the parsed value otherwise.
pub open spec fn body_of(s: &str) -> Result<JsonVal, TbaError> {
    if s.spec_bytes().len() > MAX_BODY_BYTES {
        Err(TbaError::Oversize)
    } else {
        match parse_of(s@) {
            Some(v) => Ok(v),
            None => Err(TbaError::Parse),
        }
    }
}

pub(crate) fn parse_body(s: &str) -> (r: Result<JsonVal, TbaError>)
    ensures
        r == body_of(s),
{
    let bytes = s.as_bytes();
    proof {
        broadcast use vstd::slice::axiom_spec_len;
    }
    if bytes.len() > MAX_BODY_BYTES {
        return Err(TbaError::Oversize);
    }
    parse_json(s)
}

/// What decoding a team-request body yields.
pub open spec fn decoded_team(s: &str) -> Result<Team, TbaError> {
    match body_of(s) {
        Err(e) => Err(e),
        Ok(v) => team_of(v),
    }
}

/// What decoding an event-request body yields.
pub open spec fn decoded_event(s: &str) -> Result<Event, TbaError> {
    match body_of(s) {
        Err(e) => Err(e),
        Ok(v) => event_of(v),
    }
}

/// What decoding a match-request body yields, as the record's shape.
pub open spec fn decoded_game(s: &str) -> Result<GameRecord, TbaError> {
    match body_of(s) {
        Err(e) => Err(e),
        Ok(v) => game_of(v),
    }
}

/// What decoding an event-teams body yields: one team per array element,
/// in order.
pub open spec fn decoded_team_list(s: &str) -> Result<Seq<Team>, TbaError> {
    match body_of(s) {
        Err(e) => Err(e),
        Ok(v) => match v {
            JsonVal::List(arr) => team_list_of(arr@),
            _ => Err(TbaError::Structure),
        },
    }
}

/// What decoding a season-events body yields: one event per array element,
/// in order.
pub open spec fn decoded_event_list(s: &str) -> Result<Seq<Event>, TbaError> {
    match body_of(s) {
        Err(e) => Err(e),
        Ok(v) => match v {
            JsonVal::List(arr) => event_list_of(arr@),
            _ => Err(TbaError::Structure),
        },
    }
}

/// What decoding an event-matches body yields: one match record per array
/// element, in order.
pub open spec fn decoded_game_list(s: &str) -> Result<Seq<GameRecord>, TbaError> {
    match body_of(s) {
        Err(e) => Err(e),
        Ok(v) => match v {
            JsonVal::List(arr) => game_list_of(arr@),
            _ => Err(TbaError::Structure),
        },
    }
}

} // verus!
