//! Integer signals of popularity scoring and user relevance configuration.
//!
//! Popularity is derived from the Wikidata sitelink count of each point of
//! interest: read from the sitelink table when it has one, otherwise from the
//! `sitelinks` (or `sitelink_count`) entry of the point's JSON tags, which
//! are decoded with `serde_json` only when the table has no count. This
//! module interprets the entry, parses counts written as strings, and checks
//! that counts and identifiers fit their types. Claim selectors name the
//! Wikidata claims that match a theme of interest, and a theme claim mapping
//! groups them by theme.

use vstd::prelude::*;

use crate::text::{chars_of, is_ascii_digit, trim, trim_bounds};

verus! {

/// Errors raised while computing or persisting popularity scores.
#[derive(Debug)]
pub enum PopularityError {
    /// Opening the SQLite database failed.
    OpenDatabase { path: camino::Utf8PathBuf, source: rusqlite::Error },
    /// Preparing or executing a database query failed.
    Query { operation: &'static str, source: rusqlite::Error },
    /// A point of interest identifier read from SQLite is negative.
    PoiIdOutOfRange { poi_id: i64 },
    /// Parsing a point of interest's tag payload failed.
    ParseTags { poi_id: u64, source: serde_json::Error },
    /// A sitelink count was present but does not fit a `u32`.
    InvalidSitelinkCount { poi_id: u64, raw: i64 },
    /// A sitelink entry of the tags is not a usable count.
    InvalidSitelinkCountJson { poi_id: u64, raw_json: String },
    /// Creating the parent directory of the output file failed.
    CreateParent { path: camino::Utf8PathBuf, source: std::io::Error },
    /// Writing the popularity file failed.
    WriteFile { path: camino::Utf8PathBuf, source: std::io::Error },
    /// Serialising the scores failed.
    Serialise { path: camino::Utf8PathBuf, source: bincode::Error },
}

/// Convert a sitelink count to `u32`, reporting the point of interest and
/// the raw value when it does not fit.
pub fn i64_to_u32(value: i64, poi_id: u64) -> (result: Result<u32, PopularityError>)
    ensures
        0 <= value <= u32::MAX ==> (result matches Ok(v) && v == value),
        !(0 <= value <= u32::MAX) ==> (result matches Err(PopularityError::InvalidSitelinkCount { poi_id: p, raw })
            && p == poi_id && raw == value),
{
    if 0 <= value && value <= 0xffff_ffff {
        Ok(value as u32)
    } else {
        Err(PopularityError::InvalidSitelinkCount { poi_id, raw: value })
    }
}

/// The identifier of a point of interest read from an SQLite row, which
/// must not be negative.
pub fn poi_id_from_row(raw: i64) -> (result: Result<u64, PopularityError>)
    ensures
        raw >= 0 ==> (result matches Ok(v) && v == raw),
        raw < 0 ==> (result matches Err(PopularityError::PoiIdOutOfRange { poi_id }) && poi_id == raw),
{
    if raw >= 0 {
        Ok(raw as u64)
    } else {
        Err(PopularityError::PoiIdOutOfRange { poi_id: raw })
    }
}

/// The value of a sequence of decimal digits.
pub open spec fn digits_value(s: Seq<char>) -> int
    decreases s.len(),
{
    if s.len() == 0 {
        0
    } else {
        digits_value(s.drop_last()) * 10 + ((s.last() as int) - 48)
    }
}

/// Whether every character is an ASCII decimal digit.
pub open spec fn all_digits(s: Seq<char>) -> bool {
    forall|i: int| 0 <= i < s.len() ==> is_ascii_digit(#[trigger] s[i])
}

/// The meaning of `str::parse::<i64>`: an optional `+` or `-` sign, then
/// one or more decimal digits, whose value must fit an `i64`.
pub open spec fn spec_parse_i64(s: Seq<char>) -> Option<int> {
    let negative = s.len() > 0 && s[0] == '-';
    let body = if s.len() > 0 && (s[0] == '-' || s[0] == '+') {
        s.drop_first()
    } else {
        s
    };
    if body.len() == 0 || !all_digits(body) {
        None
    } else {
        let v = if negative {
            -digits_value(body)
        } else {
            digits_value(body)
        };
        if i64::MIN <= v <= i64::MAX {
            Some(v)
        } else {
            None
        }
    }
}

/// The value of a digits prefix never exceeds the value of the digits.
proof fn lemma_digits_value_prefix(s: Seq<char>, k: int)
    requires
        0 <= k <= s.len(),
        all_digits(s),
    ensures
        0 <= digits_value(s.take(k)) <= digits_value(s),
    decreases s.len(),
{
    if k == s.len() {
        assert(s.take(k) == s);
        lemma_digits_value_nonneg(s);
    } else {
        assert(s.drop_last().take(k) == s.take(k));
        assert(all_digits(s.drop_last())) by {
            assert forall|i: int| 0 <= i < s.drop_last().len() implies is_ascii_digit(#[trigger] s.drop_last()[i]) by {
                assert(s.drop_last()[i] == s[i]);
            }
        }
        lemma_digits_value_prefix(s.drop_last(), k);
        assert(is_ascii_digit(s[s.len() - 1]));
    }
}

/// The value of digits is not negative.
proof fn lemma_digits_value_nonneg(s: Seq<char>)
    requires
        all_digits(s),
    ensures
        digits_value(s) >= 0,
    decreases s.len(),
{
    if s.len() > 0 {
        assert(all_digits(s.drop_last())) by {
            assert forall|i: int| 0 <= i < s.drop_last().len() implies is_ascii_digit(#[trigger] s.drop_last()[i]) by {
                assert(s.drop_last()[i] == s[i]);
            }
        }
        lemma_digits_value_nonneg(s.drop_last());
        assert(is_ascii_digit(s[s.len() - 1]));
    }
}

/// The value of a decimal digit.
fn digit_value(c: char) -> (result: u32)
    requires
        is_ascii_digit(c),
    ensures
        result as int == (c as int) - 48,
{
    (c as u32) - 48
}

/// Whether `c` is an ASCII decimal digit.
fn is_digit(c: char) -> (result: bool)
    ensures
        result == is_ascii_digit(c),
{
    '0' <= c && c <= '9'
}

/// Parse a decimal `i64` as `str::parse::<i64>` does (see
/// [`spec_parse_i64`]).
pub fn parse_i64(s: &str) -> (result: Option<i64>)
    ensures
        match result {
            Some(v) => spec_parse_i64(s@) == Some(v as int),
            None => spec_parse_i64(s@) is None,
        },
{
    let chars = chars_of(s);
    let negative = chars.len() > 0 && chars[0] == '-';
    let start: usize = if chars.len() > 0 && (chars[0] == '-' || chars[0] == '+') {
        1
    } else {
        0
    };
    let ghost body = chars@.subrange(start as int, chars@.len() as int);
    proof {
        if start == 1 {
            assert(body == s@.drop_first());
        } else {
            assert(body == s@);
        }
    }
    if start == chars.len() {
        return None;
    }
    let mut acc: u128 = 0;
    let mut i: usize = start;
    while i < chars.len()
        invariant
            start <= i <= chars@.len(),
            chars@ == s@,
            body == chars@.subrange(start as int, chars@.len() as int),
            body == (if s@.len() > 0 && (s@[0] == '-' || s@[0] == '+') {
                s@.drop_first()
            } else {
                s@
            }),
            negative == (s@.len() > 0 && s@[0] == '-'),
            start < chars@.len(),
            all_digits(chars@.subrange(start as int, i as int)),
            acc as int == digits_value(chars@.subrange(start as int, i as int)),
            acc <= 0x8000_0000_0000_0000,
        decreases chars@.len() - i,
    {
        let c = chars[i];
        let ghost prefix = chars@.subrange(start as int, i as int);
        let ghost next = chars@.subrange(start as int, i + 1);
        proof {
            assert(next.drop_last() == prefix);
            assert(next.last() == c);
        }
        if !is_digit(c) {
            proof {
                assert(body[i - start] == c);
            }
            return None;
        }
        let d = digit_value(c);
        acc = acc * 10 + d as u128;
        proof {
            assert(all_digits(next)) by {
                assert forall|k: int| 0 <= k < next.len() implies is_ascii_digit(#[trigger] next[k]) by {
                    if k < prefix.len() {
                        assert(next[k] == prefix[k]);
                    }
                }
            }
        }
        if acc > 0x8000_0000_0000_0000 {
            proof {
                if all_digits(body) {
                    assert(body.take(i + 1 - start) == next);
                    lemma_digits_value_prefix(body, i + 1 - start);
                }
            }
            return None;
        }
        i = i + 1;
    }
    assert(chars@.subrange(start as int, chars@.len() as int) == body);
    if negative {
        let v: i128 = -(acc as i128);
        if v < -0x8000_0000_0000_0000 {
            return None;
        }
        Some(v as i64)
    } else {
        if acc > 0x7fff_ffff_ffff_ffff {
            return None;
        }
        Some(acc as i64)
    }
}

/// A sitelink entry of the tags, as decoded JSON: `null`, a number (its
/// value when it is an integer that fits `i64`, and its JSON text), a
/// string, or any other JSON value (its text).
#[derive(Debug, Clone)]
pub enum SitelinkValue {
    Null,
    Number { as_i64: Option<i64>, json: String },
    Text(String),
    Other { json: String },
}

/// The abstract content of a decoded JSON value.
pub enum ValueModel {
    Null,
    Number(Option<i64>, Seq<char>),
    Text(Seq<char>),
    Other(Seq<char>),
}

/// The abstract content of a decoded JSON value.
pub open spec fn value_model(v: SitelinkValue) -> ValueModel {
    match v {
        SitelinkValue::Null => ValueModel::Null,
        SitelinkValue::Number { as_i64, json } => ValueModel::Number(as_i64, json@),
        SitelinkValue::Text(text) => ValueModel::Text(text@),
        SitelinkValue::Other { json } => ValueModel::Other(json@),
    }
}

/// The members of the JSON value that `serde_json::from_str` decodes from
/// `tags`: `None` when the text is not JSON, `Some(None)` when the value is
/// not an object, and otherwise the object's members with their values.
pub uninterp spec fn decoded_members(tags: Seq<char>) -> Option<Option<Seq<(Seq<char>, ValueModel)>>>;

/// The abstract content of decoded members.
pub open spec fn members_model(m: Option<Vec<(String, SitelinkValue)>>) -> Option<Seq<(Seq<char>, ValueModel)>> {
    match m {
        None => None,
        Some(v) => Some(v@.map_values(|p: (String, SitelinkValue)| (p.0@, value_model(p.1)))),
    }
}

/// Decode tags with `serde_json::from_str::<serde_json::Value>` and, when
/// the value is an object, convert each member: the result is
/// `decoded_members(tags)`; nothing more is claimed of it.
#[verifier::external_body]
pub(crate) fn decode_members(tags: &str) -> (result: Result<Option<Vec<(String, SitelinkValue)>>, serde_json::Error>)
    ensures
        match result {
            Ok(m) => decoded_members(tags@) == Some(members_model(m)),
            Err(_) => decoded_members(tags@) is None,
        },
{
    let value: serde_json::Value = serde_json::from_str(tags)?;
    Ok(value.as_object().map(|object| object.iter().map(|(key, member)| (key.clone(), match member {
        serde_json::Value::Null => SitelinkValue::Null,
        serde_json::Value::Number(n) => SitelinkValue::Number { as_i64: n.as_i64(), json: member.to_string() },
        serde_json::Value::String(text) => SitelinkValue::Text(text.clone()),
        other => SitelinkValue::Other { json: other.to_string() },
    })).collect()))
}

/// Whether `result` reports the invalid sitelink JSON `raw` of `poi_id`.
pub open spec fn invalid_json(result: Result<Option<i64>, PopularityError>, poi_id: u64, raw: Seq<char>) -> bool {
    result matches Err(PopularityError::InvalidSitelinkCountJson { poi_id: p, raw_json }) && p == poi_id
        && raw_json@ == raw
}

/// What a string entry gives: nothing when it is blank; otherwise its
/// trimmed text parsed as an `i64`, or an error carrying the trimmed text.
pub open spec fn text_entry_result(result: Result<Option<i64>, PopularityError>, poi_id: u64, text: Seq<char>) -> bool {
    if trim(text).len() == 0 {
        result matches Ok(None)
    } else {
        match spec_parse_i64(trim(text)) {
            Some(v) => result matches Ok(Some(r)) && r == v,
            None => invalid_json(result, poi_id, trim(text)),
        }
    }
}

/// The count an entry gives: `Some(None)` for no count (`null`, a blank
/// string), `Some(Some(n))` for a count (an `i64` number, a string whose
/// trimmed text parses as an `i64`), `None` when the entry is unusable.
pub open spec fn entry_count(value: ValueModel) -> Option<Option<int>> {
    match value {
        ValueModel::Null => Some(None),
        ValueModel::Number(n, _) => match n {
            Some(v) => Some(Some(v as int)),
            None => None,
        },
        ValueModel::Text(text) => if trim(text).len() == 0 {
            Some(None)
        } else {
            match spec_parse_i64(trim(text)) {
                Some(v) => Some(Some(v)),
                None => None,
            }
        },
        ValueModel::Other(_) => None,
    }
}

/// The text an unusable entry is reported with: the JSON text of a number
/// or other value, the trimmed text of a string.
pub open spec fn entry_raw(value: ValueModel) -> Seq<char> {
    match value {
        ValueModel::Null => Seq::empty(),
        ValueModel::Number(_, json) => json,
        ValueModel::Text(text) => trim(text),
        ValueModel::Other(json) => json,
    }
}

/// What an entry gives (see [`entry_count`]): nothing, its count, or an
/// error carrying [`entry_raw`].
pub open spec fn entry_result(result: Result<Option<i64>, PopularityError>, poi_id: u64, value: ValueModel) -> bool {
    match entry_count(value) {
        Some(None) => result matches Ok(None),
        Some(Some(n)) => result matches Ok(Some(r)) && r == n,
        None => invalid_json(result, poi_id, entry_raw(value)),
    }
}

/// A number entry: its `i64` value, or an error carrying its JSON text.
pub fn extract_number_value(as_i64: Option<i64>, json: &str, poi_id: u64) -> (result: Result<Option<i64>, PopularityError>)
    ensures
        match as_i64 {
            Some(v) => result matches Ok(Some(r)) && r == v,
            None => invalid_json(result, poi_id, json@),
        },
{
    match as_i64 {
        Some(v) => Ok(Some(v)),
        None => Err(
            PopularityError::InvalidSitelinkCountJson { poi_id, raw_json: String::from_str(json) },
        ),
    }
}

/// A string entry: nothing when it is blank; otherwise its trimmed text
/// parsed as an `i64`, or an error carrying the trimmed text.
pub fn extract_string_value(text: &str, poi_id: u64) -> (result: Result<Option<i64>, PopularityError>)
    ensures
        text_entry_result(result, poi_id, text@),
{
    let chars = chars_of(text);
    let (from, to) = trim_bounds(&chars, 0, chars.len());
    assert(chars@.subrange(0, chars@.len() as int) == chars@);
    if from == to {
        return Ok(None);
    }
    let raw = crate::text::string_from_chars(&chars, from, to);
    match parse_i64(raw.as_str()) {
        Some(v) => Ok(Some(v)),
        None => Err(PopularityError::InvalidSitelinkCountJson { poi_id, raw_json: raw }),
    }
}

/// The count an entry gives: nothing for `null`, a number or a string as
/// their extractors read them, an error carrying the JSON text otherwise.
pub fn interpret_sitelink_value(value: &SitelinkValue, poi_id: u64) -> (result: Result<Option<i64>, PopularityError>)
    ensures
        entry_result(result, poi_id, value_model(*value)),
{
    match value {
        SitelinkValue::Null => Ok(None),
        SitelinkValue::Number { as_i64, json } => extract_number_value(*as_i64, json.as_str(), poi_id),
        SitelinkValue::Text(text) => extract_string_value(text.as_str(), poi_id),
        SitelinkValue::Other { json } => Err(
            PopularityError::InvalidSitelinkCountJson { poi_id, raw_json: json.clone() },
        ),
    }
}

/// The value of the first member named `key`.
pub open spec fn member(members: Seq<(Seq<char>, ValueModel)>, key: Seq<char>) -> Option<ValueModel>
    decreases members.len(),
{
    if members.len() == 0 {
        None
    } else if members[0].0 == key {
        Some(members[0].1)
    } else {
        member(members.drop_first(), key)
    }
}

/// The sitelink entry of an object's members: `sitelinks`, else
/// `sitelink_count`.
pub open spec fn sitelink_entry(members: Seq<(Seq<char>, ValueModel)>) -> Option<ValueModel> {
    match member(members, "sitelinks"@) {
        Some(v) => Some(v),
        None => member(members, "sitelink_count"@),
    }
}

/// The count that decoded tags give (see [`entry_count`]): no count when
/// the value is not an object or has no sitelink entry.
pub open spec fn tags_count(decoded: Option<Seq<(Seq<char>, ValueModel)>>) -> Option<Option<int>> {
    match decoded {
        None => Some(None),
        Some(members) => match sitelink_entry(members) {
            None => Some(None),
            Some(v) => entry_count(v),
        },
    }
}

/// What decoded tags give: nothing when the value is not an object or has
/// no sitelink entry; otherwise what the entry gives.
pub open spec fn members_result(result: Result<Option<i64>, PopularityError>, poi_id: u64, decoded: Option<Seq<(Seq<char>, ValueModel)>>) -> bool {
    match decoded {
        None => result matches Ok(None),
        Some(members) => match sitelink_entry(members) {
            None => result matches Ok(None),
            Some(v) => entry_result(result, poi_id, v),
        },
    }
}

/// The value of the first member named `key`.
fn find_member<'a>(members: &'a Vec<(String, SitelinkValue)>, key: &str) -> (result: Option<&'a SitelinkValue>)
    ensures
        match result {
            None => member(members_model(Some(*members)).unwrap(), key@) is None,
            Some(v) => member(members_model(Some(*members)).unwrap(), key@) == Some(value_model(*v)),
        },
{
    let ghost ms = members_model(Some(*members)).unwrap();
    let mut i: usize = 0;
    assert(ms.skip(0) == ms);
    while i < members.len()
        invariant
            i <= members@.len(),
            ms == members@.map_values(|p: (String, SitelinkValue)| (p.0@, value_model(p.1))),
            member(ms, key@) == member(ms.skip(i as int), key@),
        decreases members@.len() - i,
    {
        let ghost rest = ms.skip(i as int);
        assert(rest[0] == ms[i as int]);
        assert(rest.drop_first() == ms.skip(i + 1));
        if crate::text::str_eq(members[i].0.as_str(), key) {
            return Some(&members[i].1);
        }
        i = i + 1;
    }
    assert(ms.skip(i as int).len() == 0);
    None
}

/// The count that decoded tags give (`None` when the value is not a JSON
/// object): the `sitelinks` member, else the `sitelink_count` member,
/// interpreted by [`interpret_sitelink_value`]; nothing without either.
pub fn sitelinks_from_members(members: &Option<Vec<(String, SitelinkValue)>>, poi_id: u64) -> (result: Result<Option<i64>, PopularityError>)
    ensures
        members_result(result, poi_id, members_model(*members)),
{
    let entries = match members {
        None => {
            return Ok(None);
        },
        Some(entries) => entries,
    };
    let entry = match find_member(entries, "sitelinks") {
        Some(v) => v,
        None => match find_member(entries, "sitelink_count") {
            Some(v) => v,
            None => {
                return Ok(None);
            },
        },
    };
    interpret_sitelink_value(entry, poi_id)
}

/// The sitelink count that the JSON tags of a point of interest give:
/// an error naming the point of interest when the tags are not JSON;
/// otherwise what their members give (see [`members_result`]).
pub fn parse_sitelinks_from_tags(tags: &str, poi_id: u64) -> (result: Result<Option<i64>, PopularityError>)
    ensures
        match decoded_members(tags@) {
            None => result matches Err(PopularityError::ParseTags { poi_id: p, .. }) && p == poi_id,
            Some(decoded) => members_result(result, poi_id, decoded),
        },
{
    match decode_members(tags) {
        Ok(members) => sitelinks_from_members(&members, poi_id),
        Err(source) => Err(PopularityError::ParseTags { poi_id, source }),
    }
}

/// Whether `result` is the `u32` count `n` of `poi_id`, or the error for a
/// count that does not fit.
pub open spec fn count_result(result: Result<u32, PopularityError>, poi_id: u64, n: int) -> bool {
    if 0 <= n <= u32::MAX {
        result matches Ok(c) && c == n
    } else {
        result matches Err(PopularityError::InvalidSitelinkCount { poi_id: p, raw: r }) && p == poi_id
            && r == n
    }
}

/// The sitelink count of a point of interest: the database value when
/// there is one, else the count its tags give, else zero; the count must
/// fit a `u32`.
pub fn sitelink_count(db_value: Option<i64>, tag_value: Option<i64>, poi_id: u64) -> (result: Result<u32, PopularityError>)
    ensures
        ({
            let raw = match db_value {
                Some(v) => Some(v),
                None => tag_value,
            };
            match raw {
                None => result matches Ok(c) && c == 0,
                Some(v) => if 0 <= v <= u32::MAX {
                    result matches Ok(c) && c == v
                } else {
                    result matches Err(PopularityError::InvalidSitelinkCount { poi_id: p, raw: r })
                        && p == poi_id && r == v
                },
            }
        }),
{
    match db_value {
        Some(raw) => i64_to_u32(raw, poi_id),
        None => match tag_value {
            Some(raw) => i64_to_u32(raw, poi_id),
            None => Ok(0),
        },
    }
}

/// The sitelink count of a point of interest from the database value and
/// its JSON tags: the database value when there is one (the tags are then
/// not read); else the count the tags give, zero without one; an error
/// naming the point of interest for tags that are not JSON or an unusable
/// entry, and for a count that does not fit a `u32`.
pub fn sitelink_count_of(db_value: Option<i64>, tags: &str, poi_id: u64) -> (result: Result<u32, PopularityError>)
    ensures
        match db_value {
            Some(v) => count_result(result, poi_id, v as int),
            None => match decoded_members(tags@) {
                None => result matches Err(PopularityError::ParseTags { poi_id: p, .. }) && p == poi_id,
                Some(decoded) => match tags_count(decoded) {
                    Some(None) => result matches Ok(c) && c == 0,
                    Some(Some(n)) => count_result(result, poi_id, n),
                    None => result matches Err(PopularityError::InvalidSitelinkCountJson { poi_id: p, raw_json })
                        && p == poi_id && raw_json@ == entry_raw(sitelink_entry(decoded.unwrap()).unwrap()),
                },
            },
        },
{
    if let Some(raw) = db_value {
        return i64_to_u32(raw, poi_id);
    }
    match parse_sitelinks_from_tags(tags, poi_id) {
        Ok(tag_value) => sitelink_count(None, tag_value, poi_id),
        Err(e) => Err(e),
    }
}

/// Errors raised when configuring the user relevance scorer.
#[derive(Debug)]
pub enum UserRelevanceError {
    /// Opening the SQLite database failed.
    OpenDatabase { path: camino::Utf8PathBuf, source: rusqlite::Error },
    /// Preparing the claim lookup statement failed.
    PrepareStatement { source: rusqlite::Error },
    /// Reading the popularity file failed.
    ReadPopularity { path: camino::Utf8PathBuf, source: std::io::Error },
    /// Decoding the popularity file failed.
    DecodePopularity { path: camino::Utf8PathBuf, source: bincode::Error },
    /// The weights are unusable.
    InvalidWeights,
    /// A claim selector lacks an identifier.
    InvalidSelector,
}

/// Identifies a Wikidata claim by property and value.
#[derive(Debug, Clone, PartialEq, Eq, Hash)]
pub struct ClaimSelector {
    property_id: String,
    value_entity_id: String,
}

/// Whether a string is empty or whitespace.
fn is_blank(s: &str) -> (result: bool)
    ensures
        result == (trim(s@).len() == 0),
{
    let chars = chars_of(s);
    let (from, to) = trim_bounds(&chars, 0, chars.len());
    assert(chars@.subrange(0, chars@.len() as int) == chars@);
    from == to
}

impl ClaimSelector {
    /// The property identifier.
    pub closed spec fn spec_property_id(&self) -> Seq<char> {
        self.property_id@
    }

    /// The value entity identifier.
    pub closed spec fn spec_value_entity_id(&self) -> Seq<char> {
        self.value_entity_id@
    }

    /// A selector from property and value identifiers; an error when either
    /// is empty or whitespace.
    pub fn new(property_id: String, value_entity_id: String) -> (result: Result<Self, UserRelevanceError>)
        ensures
            (trim(property_id@).len() == 0 || trim(value_entity_id@).len() == 0) ==> result matches Err(
                UserRelevanceError::InvalidSelector,
            ),
            (trim(property_id@).len() > 0 && trim(value_entity_id@).len() > 0) ==> (result matches Ok(s)
                && s.spec_property_id() == property_id@ && s.spec_value_entity_id() == value_entity_id@),
    {
        if is_blank(property_id.as_str()) || is_blank(value_entity_id.as_str()) {
            return Err(UserRelevanceError::InvalidSelector);
        }
        Ok(ClaimSelector { property_id, value_entity_id })
    }

    /// The property identifier.
    pub fn property_id(&self) -> (result: &str)
        ensures
            result@ == self.spec_property_id(),
    {
        self.property_id.as_str()
    }

    /// The value entity identifier.
    pub fn value_entity_id(&self) -> (result: &str)
        ensures
            result@ == self.spec_value_entity_id(),
    {
        self.value_entity_id.as_str()
    }
}

/// The property of the heritage designation claim that the default mapping
/// selects for the history theme.
pub const DEFAULT_HISTORY_PROPERTY: &'static str = "P1435";

/// The value of the heritage designation claim that the default mapping
/// selects for the history theme.
pub const DEFAULT_HISTORY_VALUE: &'static str = "Q9259";

/// The entries of a theme mapping: each theme with its selectors, in the
/// order in which the themes were first inserted.
pub type ThemeEntries<T> = Seq<(T, Seq<ClaimSelector>)>;

/// The first index at or after `i` whose theme is `theme`, or `-1`.
pub open spec fn theme_position_from<T>(entries: ThemeEntries<T>, theme: T, i: int) -> int
    decreases entries.len() - i,
{
    if i < 0 || i >= entries.len() {
        -1
    } else if entries[i].0 == theme {
        i
    } else {
        theme_position_from(entries, theme, i + 1)
    }
}

/// The index of the entry of `theme`, or `-1` when it has none.
pub open spec fn theme_position<T>(entries: ThemeEntries<T>, theme: T) -> int {
    theme_position_from(entries, theme, 0)
}

/// The selectors of `theme`, if it has an entry.
pub open spec fn theme_selectors<T>(entries: ThemeEntries<T>, theme: T) -> Option<Seq<ClaimSelector>> {
    let i = theme_position(entries, theme);
    if i >= 0 {
        Some(entries[i].1)
    } else {
        None
    }
}

/// The entries after adding `selector` to `theme`: appended to its
/// selectors when it has an entry, else a new entry at the end.
pub open spec fn theme_inserted<T>(entries: ThemeEntries<T>, theme: T, selector: ClaimSelector) -> ThemeEntries<T> {
    let i = theme_position(entries, theme);
    if i >= 0 {
        entries.update(i, (entries[i].0, entries[i].1.push(selector)))
    } else {
        entries.push((theme, seq![selector]))
    }
}

/// No theme has two entries.
pub open spec fn themes_distinct<T>(entries: ThemeEntries<T>) -> bool {
    forall|i: int, j: int| 0 <= i < j < entries.len() ==> #[trigger] entries[i].0 != #[trigger] entries[j].0
}

/// The search from `i` ends at `-1` or at an index at or after `i` that
/// holds `theme`, with no index in between holding it.
pub proof fn lemma_theme_position_from<T>(entries: ThemeEntries<T>, theme: T, i: int)
    requires
        0 <= i,
    ensures
        ({
            let p = theme_position_from(entries, theme, i);
            &&& p == -1 || (i <= p < entries.len() && entries[p].0 == theme)
            &&& forall|j: int| i <= j < entries.len() && (p == -1 || j < p) ==> entries[j].0 != theme
        }),
    decreases entries.len() - i,
{
    if i < entries.len() && entries[i].0 != theme {
        lemma_theme_position_from(entries, theme, i + 1);
    }
}

/// A theme's selectors after an insertion: the inserted theme has its
/// earlier selectors (none if it had no entry) followed by the new one;
/// every other theme keeps its selectors; distinct themes stay distinct.
pub proof fn lemma_theme_inserted<T>(entries: ThemeEntries<T>, theme: T, selector: ClaimSelector, other: T)
    ensures
        theme_selectors(theme_inserted(entries, theme, selector), theme) == Some(
            match theme_selectors(entries, theme) {
                Some(before) => before,
                None => Seq::<ClaimSelector>::empty(),
            }.push(selector),
        ),
        other != theme ==> theme_selectors(theme_inserted(entries, theme, selector), other)
            == theme_selectors(entries, other),
        themes_distinct(entries) ==> themes_distinct(theme_inserted(entries, theme, selector)),
{
    let after = theme_inserted(entries, theme, selector);
    let p = theme_position(entries, theme);
    lemma_theme_position_from(entries, theme, 0);
    lemma_theme_position_from(entries, other, 0);
    lemma_theme_position_from(after, theme, 0);
    lemma_theme_position_from(after, other, 0);
    let q = theme_position(entries, other);
    let pa = theme_position(after, theme);
    let qa = theme_position(after, other);
    if p >= 0 {
        assert(after.len() == entries.len());
        assert(after[p].0 == theme);
        assert(pa == p) by {
            if pa != p {
                if pa == -1 || pa > p {
                    assert(after[p].0 == theme);
                } else {
                    assert(after[pa].0 == entries[pa].0);
                }
            }
        }
        if other != theme {
            assert forall|j: int| 0 <= j < entries.len() implies (after[j].0 == other) == (entries[j].0
                == other) by {
                if j == p {
                    assert(after[j].0 == entries[j].0);
                }
            }
            assert(qa == q) by {
                if qa != q {
                    if qa == -1 {
                        assert(after[q].0 == other);
                    } else if q == -1 {
                        assert(entries[qa].0 == other);
                    } else if qa < q {
                        assert(entries[qa].0 == other);
                    } else {
                        assert(after[q].0 == other);
                    }
                }
            }
            if q >= 0 {
                assert(q != p);
                assert(after[q] == entries[q]);
            }
        }
        if themes_distinct(entries) {
            assert forall|i: int, j: int| 0 <= i < j < after.len() implies #[trigger] after[i].0
                != #[trigger] after[j].0 by {
                assert(after[i].0 == entries[i].0);
                assert(after[j].0 == entries[j].0);
            }
        }
    } else {
        let n = entries.len() as int;
        assert(after.len() == n + 1);
        assert(after[n].0 == theme);
        assert forall|j: int| 0 <= j < n implies after[j] == entries[j] by {}
        assert(pa == n) by {
            if pa != n {
                if pa == -1 {
                    assert(after[n].0 == theme);
                } else {
                    assert(entries[pa].0 == theme);
                }
            }
        }
        assert(after[n].1 == seq![selector]);
        assert(seq![selector] =~= Seq::<ClaimSelector>::empty().push(selector));
        if other != theme {
            assert(qa == q) by {
                if qa != q {
                    if qa == -1 {
                        assert(after[q].0 == other);
                    } else if qa == n {
                        assert(after[n].0 == theme);
                    } else if q == -1 {
                        assert(entries[qa].0 == other);
                    } else if qa < q {
                        assert(entries[qa].0 == other);
                    } else {
                        assert(after[q].0 == other);
                    }
                }
            }
            if q >= 0 {
                assert(after[q] == entries[q]);
            }
        }
        if themes_distinct(entries) {
            assert forall|i: int, j: int| 0 <= i < j < after.len() implies #[trigger] after[i].0
                != #[trigger] after[j].0 by {
                if j == n {
                    assert(entries[i].0 != theme);
                } else {
                    assert(after[i] == entries[i]);
                    assert(after[j] == entries[j]);
                }
            }
        }
    }
}

/// A declarative mapping from themes of interest to the Wikidata claims
/// that make a point of interest match them, one entry per theme. The theme
/// type is the caller's and the operations find a theme with its `==`; their
/// contracts speak of theme types whose `==` is equality of values
/// (`vstd::laws_eq::obeys_concrete_eq`), such as an enum whose `PartialEq`
/// is written beside a `PartialEqSpecImpl` that says so.
#[derive(Debug, Clone)]
pub struct ThemeClaimMapping<T> {
    entries: Vec<(T, Vec<ClaimSelector>)>,
}

impl<T> View for ThemeClaimMapping<T> {
    type V = ThemeEntries<T>;

    closed spec fn view(&self) -> ThemeEntries<T> {
        self.entries@.map_values(|e: (T, Vec<ClaimSelector>)| (e.0, e.1@))
    }
}

impl<T: PartialEq> ThemeClaimMapping<T> {
    /// An empty mapping.
    pub fn new() -> (result: Self)
        ensures
            result@ == Seq::<(T, Seq<ClaimSelector>)>::empty(),
    {
        let result = ThemeClaimMapping { entries: Vec::new() };
        assert(result@ =~= Seq::<(T, Seq<ClaimSelector>)>::empty());
        result
    }

    /// The index of the entry of `theme`, if it has one.
    fn find(&self, theme: &T) -> (result: Option<usize>)
        ensures
            result matches Some(i) ==> i < self@.len(),
            vstd::laws_eq::obeys_concrete_eq::<T>() ==> match result {
                Some(i) => theme_position(self@, *theme) == i,
                None => theme_position(self@, *theme) == -1,
            },
    {
        let mut i: usize = 0;
        while i < self.entries.len()
            invariant
                i <= self.entries@.len(),
                self@.len() == self.entries@.len(),
                vstd::laws_eq::obeys_concrete_eq::<T>() ==> theme_position(self@, *theme)
                    == theme_position_from(self@, *theme, i as int),
            decreases self.entries@.len() - i,
        {
            proof {
                reveal(vstd::laws_eq::obeys_concrete_eq);
            }
            assert(self@[i as int].0 == self.entries@[i as int].0);
            if self.entries[i].0 == *theme {
                return Some(i);
            }
            i = i + 1;
        }
        None
    }

    /// Add a selector to a theme: appended to the theme's selectors when it
    /// has an entry, else in a new entry (see [`theme_inserted`]).
    pub fn insert(&mut self, theme: T, selector: ClaimSelector)
        ensures
            vstd::laws_eq::obeys_concrete_eq::<T>() ==> final(self)@ == theme_inserted(
                old(self)@,
                theme,
                selector,
            ),
    {
        let ghost before = self@;
        match self.find(&theme) {
            Some(i) => {
                let mut entry = self.entries.remove(i);
                let ghost old_selectors = entry.1@;
                entry.1.push(selector);
                self.entries.insert(i, entry);
                proof {
                    if vstd::laws_eq::obeys_concrete_eq::<T>() {
                        lemma_theme_position_from(before, theme, 0);
                        assert(self@ =~= theme_inserted(before, theme, selector));
                    }
                }
            },
            None => {
                let selectors = vec![selector];
                assert(selectors@ =~= seq![selector]);
                self.entries.push((theme, selectors));
                proof {
                    assert(self@ =~= before.push((theme, seq![selector])));
                }
            },
        }
    }

    /// The mapping with a selector added to a theme (see [`Self::insert`]).
    pub fn with_selector(self, theme: T, selector: ClaimSelector) -> (result: Self)
        ensures
            vstd::laws_eq::obeys_concrete_eq::<T>() ==> result@ == theme_inserted(self@, theme, selector),
    {
        let mut result = self;
        result.insert(theme, selector);
        result
    }

    /// The selectors of a theme, if it has an entry.
    pub fn selectors(&self, theme: &T) -> (result: Option<&[ClaimSelector]>)
        ensures
            vstd::laws_eq::obeys_concrete_eq::<T>() ==> match result {
                Some(s) => theme_selectors(self@, *theme) == Some(s@),
                None => theme_selectors(self@, *theme) is None,
            },
    {
        match self.find(theme) {
            Some(i) => {
                assert(self@[i as int].1 == self.entries@[i as int].1@);
                Some(self.entries[i].1.as_slice())
            },
            None => None,
        }
    }

    /// The number of themes with an entry.
    pub fn theme_count(&self) -> (result: usize)
        ensures
            result == self@.len(),
    {
        self.entries.len()
    }

    /// The theme of the entry at `index` and its selectors.
    pub fn entry(&self, index: usize) -> (result: (&T, &[ClaimSelector]))
        requires
            index < self@.len(),
        ensures
            *result.0 == self@[index as int].0,
            result.1@ == self@[index as int].1,
    {
        let e = &self.entries[index];
        (&e.0, e.1.as_slice())
    }

    /// The mapping that selects heritage designations ([`DEFAULT_HISTORY_PROPERTY`]
    /// with value [`DEFAULT_HISTORY_VALUE`]) for the given history theme.
    pub fn with_default_history(history: T) -> (result: Self)
        ensures
            result@.len() == 1,
            result@[0].0 == history,
            result@[0].1.len() == 1,
            result@[0].1[0].spec_property_id() == DEFAULT_HISTORY_PROPERTY@,
            result@[0].1[0].spec_value_entity_id() == DEFAULT_HISTORY_VALUE@,
    {
        let selector = ClaimSelector {
            property_id: String::from_str(DEFAULT_HISTORY_PROPERTY),
            value_entity_id: String::from_str(DEFAULT_HISTORY_VALUE),
        };
        let result = ThemeClaimMapping { entries: vec![(history, vec![selector])] };
        assert(result@[0] == (history, seq![selector]));
        result
    }
}

} // verus!
