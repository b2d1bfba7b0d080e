//! The entity mapper: bidirectional conversion between the primary
//! store's wire records and domain entities.
//!
//! Wire records carry composite identifiers whose local part must be
//! stripped of store decoration before parsing, and temporal fields
//! that arrive either as native epoch values or as ISO-8601 text.
//! Relation rows come in two shapes — a typed projection or an untyped
//! document — and the decoder tries the strict shape first, falls back
//! to field-sniffing the document, and rejects anything else.

use vstd::prelude::*;

use crate::error::MappingError;
use crate::ids::{uuid_chars, uuid_text_value, Uid};
use crate::store::{lemma_first_where, lemma_first_where_is, lookup_where};
use crate::strutil::push_char;
use crate::{clone_opt_string, view_opt_string, AccountProvider, Session, User, UserType};

verus! {

// ---------------------------------------------------------------------
// Record identifiers.

/// A composite record identifier: collection name and local id, as the
/// primary store writes them.
pub struct WireRecordId {
    pub collection: String,
    pub raw: String,
}

/// Strips store decoration from a local id: everything from the first
/// `':'` on is dropped, and angle-bracket quoting is removed.
pub open spec fn strip_spec(s: Seq<char>) -> Seq<char>
    decreases s.len(),
{
    if s.len() == 0 {
        Seq::empty()
    } else if s[0] == ':' {
        Seq::empty()
    } else if s[0] == '\u{27e8}' || s[0] == '\u{27e9}' {
        strip_spec(s.drop_first())
    } else {
        seq![s[0]] + strip_spec(s.drop_first())
    }
}

/// The identifier value a raw local id denotes, when its stripped
/// form is one of the textual UUID renderings.
pub open spec fn parsed_id(raw: Seq<char>) -> Option<u128> {
    match uuid_text_value(strip_spec(raw)) {
        Some(n) => if 0 <= n < 0x1_0000_0000_0000_0000_0000_0000_0000_0000 {
            Some(n as u128)
        } else {
            None
        },
        None => None,
    }
}

/// Strips store decoration from a raw local id.
pub fn strip_raw_id(s: &str) -> (r: String)
    ensures
        r@ == strip_spec(s@),
{
    let n = s.unicode_len();
    let mut out = String::new();
    let mut i: usize = 0;
    proof {
        assert(s@.skip(0) =~= s@);
        assert(out@ + strip_spec(s@) =~= strip_spec(s@));
    }
    while i < n
        invariant
            n == s@.len(),
            i <= n,
            strip_spec(s@) == out@ + strip_spec(s@.skip(i as int)),
        decreases n - i,
    {
        let ghost tail = s@.skip(i as int);
        proof {
            assert(tail[0] == s@[i as int]);
            assert(tail.drop_first() =~= s@.skip(i as int + 1));
        }
        let c = s.get_char(i);
        if c == ':' {
            proof {
                assert(strip_spec(tail) =~= Seq::<char>::empty());
                assert(out@ + strip_spec(tail) =~= out@);
            }
            return out;
        }
        if c != '\u{27e8}' && c != '\u{27e9}' {
            push_char(&mut out, c);
            proof {
                assert(strip_spec(tail) =~= seq![tail[0]] + strip_spec(tail.drop_first()));
                assert(out@ =~= out@.drop_last().push(tail[0]));
            }
        }
        i = i + 1;
    }
    proof {
        assert(strip_spec(s@.skip(n as int)) =~= Seq::<char>::empty());
        assert(out@ + strip_spec(s@.skip(n as int)) =~= out@);
    }
    out
}

/// Extracts the identifier of a wire record: strip the decoration,
/// then parse the canonical rendering.  A local id that denotes no
/// UUID is a mapping error, never a silent default.
pub fn record_id_to_uid(id: &WireRecordId) -> (r: Result<Uid, MappingError>)
    ensures
        match r {
            Ok(u) => parsed_id(id.raw@) == Some(u.value),
            Err(e) => e == MappingError::InvalidIdentifier && parsed_id(id.raw@) is None,
        },
{
    let stripped = strip_raw_id(id.raw.as_str());
    match Uid::parse(stripped.as_str()) {
        Some(u) => Ok(u),
        None => Err(MappingError::InvalidIdentifier),
    }
}

// ---------------------------------------------------------------------
// Timestamps.

/// A temporal wire value: a native epoch-second count, or ISO-8601
/// text, depending on store configuration.
pub enum WireTimestamp {
    Unix(i64),
    Text(String),
}

/// The decimal value of a digit character, or -1.
pub open spec fn dec_value(c: char) -> int {
    if c == '0' { 0 } else if c == '1' { 1 } else if c == '2' { 2 } else if c == '3' { 3 }
    else if c == '4' { 4 } else if c == '5' { 5 } else if c == '6' { 6 } else if c == '7' { 7 }
    else if c == '8' { 8 } else if c == '9' { 9 } else { -1 }
}

pub open spec fn two_digits(s: Seq<char>, i: int) -> int {
    10 * dec_value(s[i]) + dec_value(s[i + 1])
}

pub open spec fn four_digits(s: Seq<char>, i: int) -> int {
    1000 * dec_value(s[i]) + 100 * dec_value(s[i + 1]) + 10 * dec_value(s[i + 2]) + dec_value(
        s[i + 3],
    )
}

pub open spec fn is_leap_year(y: int) -> bool {
    (y % 4 == 0 && y % 100 != 0) || y % 400 == 0
}

pub open spec fn days_in_month(y: int, m: int) -> int {
    if m == 2 {
        if is_leap_year(y) {
            29
        } else {
            28
        }
    } else if m == 4 || m == 6 || m == 9 || m == 11 {
        30
    } else {
        31
    }
}

pub open spec fn days_before_month(y: int, m: int) -> int
    decreases m,
{
    if m <= 1 {
        0
    } else {
        days_before_month(y, m - 1) + days_in_month(y, m - 1)
    }
}

/// Leap years before year `y` (from year 1 on).
pub open spec fn leaps_before(y: int) -> int {
    (y - 1) / 4 - (y - 1) / 100 + (y - 1) / 400
}

/// Days since 1970-01-01 of a civil date.
pub open spec fn days_from_civil(y: int, m: int, d: int) -> int {
    365 * (y - 1970) + (leaps_before(y) - leaps_before(1970)) + days_before_month(y, m) + (d - 1)
}

/// Whether the first 19 characters of `s` spell a calendar date and
/// clock time `YYYY-MM-DDThh:mm:ss` within the supported range.
pub open spec fn core_time_ok(s: Seq<char>) -> bool {
    &&& s.len() >= 19
    &&& dec_value(s[0]) >= 0
    &&& dec_value(s[1]) >= 0
    &&& dec_value(s[2]) >= 0
    &&& dec_value(s[3]) >= 0
    &&& s[4] == '-'
    &&& dec_value(s[5]) >= 0
    &&& dec_value(s[6]) >= 0
    &&& s[7] == '-'
    &&& dec_value(s[8]) >= 0
    &&& dec_value(s[9]) >= 0
    &&& (s[10] == 'T' || s[10] == 't')
    &&& dec_value(s[11]) >= 0
    &&& dec_value(s[12]) >= 0
    &&& s[13] == ':'
    &&& dec_value(s[14]) >= 0
    &&& dec_value(s[15]) >= 0
    &&& s[16] == ':'
    &&& dec_value(s[17]) >= 0
    &&& dec_value(s[18]) >= 0
    &&& 1970 <= four_digits(s, 0) <= 9999
    &&& 1 <= two_digits(s, 5) <= 12
    &&& 1 <= two_digits(s, 8) <= days_in_month(four_digits(s, 0), two_digits(s, 5))
    &&& two_digits(s, 11) < 24
    &&& two_digits(s, 14) < 60
    &&& two_digits(s, 17) < 60
}

/// The first position at or after `i` that holds no decimal digit, or
/// the end of `s`.
pub open spec fn digits_run_end(s: Seq<char>, i: int) -> int
    decreases s.len() - i,
{
    if i < 0 || i >= s.len() {
        s.len() as int
    } else if dec_value(s[i]) >= 0 {
        digits_run_end(s, i + 1)
    } else {
        i
    }
}

/// Where the zone offset starts: after the fractional seconds, when
/// any stand.
pub open spec fn offset_pos(s: Seq<char>) -> int {
    if s.len() > 19 && s[19] == '.' {
        digits_run_end(s, 20)
    } else {
        19
    }
}

/// Whether `s` carries a zone offset at position `k`: `Z`, or a
/// signed `hh:mm` pair, ending the text.
pub open spec fn offset_ok(s: Seq<char>, k: int) -> bool {
    ||| (s.len() == k + 1 && (s[k] == 'Z' || s[k] == 'z'))
    ||| (s.len() == k + 6 && (s[k] == '+' || s[k] == '-') && dec_value(s[k + 1]) >= 0 && dec_value(
        s[k + 2],
    ) >= 0 && s[k + 3] == ':' && dec_value(s[k + 4]) >= 0 && dec_value(s[k + 5]) >= 0
        && two_digits(s, k + 1) < 24 && two_digits(s, k + 4) < 60)
}

/// The seconds east of UTC a zone offset at `k` denotes.
pub open spec fn offset_seconds(s: Seq<char>, k: int) -> int {
    if s[k] == 'Z' || s[k] == 'z' {
        0
    } else if s[k] == '+' {
        two_digits(s, k + 1) * 3600 + two_digits(s, k + 4) * 60
    } else {
        -(two_digits(s, k + 1) * 3600 + two_digits(s, k + 4) * 60)
    }
}

/// Whether `s` is ISO-8601 date-time text in the supported range:
/// `YYYY-MM-DDThh:mm:ss`, optional fractional seconds, then `Z` or a
/// signed `hh:mm` zone offset.
pub open spec fn valid_rfc3339(s: Seq<char>) -> bool {
    &&& core_time_ok(s)
    &&& (s.len() > 19 && s[19] == '.' ==> digits_run_end(s, 20) > 20)
    &&& offset_ok(s, offset_pos(s))
}

/// The epoch seconds ISO-8601 text denotes: the civil instant shifted
/// by its zone offset, fractional seconds truncated.
pub open spec fn rfc3339_value(s: Seq<char>) -> int {
    days_from_civil(four_digits(s, 0), two_digits(s, 5), two_digits(s, 8)) * 86400 + two_digits(
        s,
        11,
    ) * 3600 + two_digits(s, 14) * 60 + two_digits(s, 17) - offset_seconds(s, offset_pos(s))
}

/// The epoch seconds a temporal wire value denotes, or nothing when
/// its text form is unparseable.
pub open spec fn ts_value(t: WireTimestamp) -> Option<int> {
    match t {
        WireTimestamp::Unix(n) => Some(n as int),
        WireTimestamp::Text(s) => if valid_rfc3339(s@) {
            Some(rfc3339_value(s@))
        } else {
            None
        },
    }
}

/// The decimal value of a digit character.
fn dec_of(c: char) -> (r: i8)
    ensures
        r as int == dec_value(c),
{
    match c {
        '0' => 0,
        '1' => 1,
        '2' => 2,
        '3' => 3,
        '4' => 4,
        '5' => 5,
        '6' => 6,
        '7' => 7,
        '8' => 8,
        '9' => 9,
        _ => -1,
    }
}

/// `days_before_month` is small.
proof fn lemma_days_before_month_bound(y: int, m: int)
    requires
        1 <= m <= 12,
    ensures
        0 <= days_before_month(y, m) <= 31 * (m - 1),
    decreases m,
{
    if m > 1 {
        lemma_days_before_month_bound(y, m - 1);
    }
}

/// Parses ISO-8601 date-time text to epoch seconds: the core date
/// and time, optional fractional seconds (truncated), and a `Z` or
/// signed `hh:mm` zone offset.
#[verifier::rlimit(100)]
pub fn parse_rfc3339(s: &str) -> (r: Option<i64>)
    ensures
        match r {
            Some(t) => valid_rfc3339(s@) && t as int == rfc3339_value(s@),
            None => !valid_rfc3339(s@),
        },
{
    let n = s.unicode_len();
    if n < 20 {
        return None;
    }
    let sep = s.get_char(10);
    if s.get_char(4) != '-' || s.get_char(7) != '-' || (sep != 'T' && sep != 't') || s.get_char(13)
        != ':' || s.get_char(16) != ':' {
        return None;
    }
    let y3 = dec_of(s.get_char(0));
    let y2 = dec_of(s.get_char(1));
    let y1 = dec_of(s.get_char(2));
    let y0 = dec_of(s.get_char(3));
    let mo1 = dec_of(s.get_char(5));
    let mo0 = dec_of(s.get_char(6));
    let d1 = dec_of(s.get_char(8));
    let d0 = dec_of(s.get_char(9));
    let h1 = dec_of(s.get_char(11));
    let h0 = dec_of(s.get_char(12));
    let mi1 = dec_of(s.get_char(14));
    let mi0 = dec_of(s.get_char(15));
    let sec1 = dec_of(s.get_char(17));
    let sec0 = dec_of(s.get_char(18));
    if y3 < 0 || y2 < 0 || y1 < 0 || y0 < 0 || mo1 < 0 || mo0 < 0 || d1 < 0 || d0 < 0 || h1 < 0
        || h0 < 0 || mi1 < 0 || mi0 < 0 || sec1 < 0 || sec0 < 0 {
        return None;
    }
    let y: i64 = 1000 * (y3 as i64) + 100 * (y2 as i64) + 10 * (y1 as i64) + (y0 as i64);
    let mo: i64 = 10 * (mo1 as i64) + (mo0 as i64);
    let d: i64 = 10 * (d1 as i64) + (d0 as i64);
    let h: i64 = 10 * (h1 as i64) + (h0 as i64);
    let mi: i64 = 10 * (mi1 as i64) + (mi0 as i64);
    let sec: i64 = 10 * (sec1 as i64) + (sec0 as i64);
    if y < 1970 || mo < 1 || mo > 12 {
        return None;
    }
    let dim = days_in_month_exec(y, mo);
    if d < 1 || d > dim {
        return None;
    }
    if h >= 24 || mi >= 60 || sec >= 60 {
        return None;
    }
    // Days before this month within the year.
    let mut dbm: i64 = 0;
    let mut mm: i64 = 1;
    while mm < mo
        invariant
            1 <= mm <= mo <= 12,
            dbm == days_before_month(y as int, mm as int),
            0 <= dbm <= 341,
            1970 <= y <= 9999,
        decreases mo - mm,
    {
        proof {
            lemma_days_before_month_bound(y as int, mm as int);
        }
        dbm = dbm + days_in_month_exec(y, mm);
        mm = mm + 1;
        proof {
            lemma_days_before_month_bound(y as int, mm as int);
        }
    }
    let leaps = (y - 1) / 4 - (y - 1) / 100 + (y - 1) / 400 - 477;
    proof {
        assert(leaps_before(1970) == 477);
        assert(leaps as int == leaps_before(y as int) - leaps_before(1970));
        assert(0 <= leaps < 2500);
    }
    let days = 365 * (y - 1970) + leaps + dbm + (d - 1);
    // Fractional seconds, then the zone offset.
    let mut k: usize = 19;
    if s.get_char(19) == '.' {
        let e = digits_end_from(s, 20);
        if e == 20 {
            return None;
        }
        k = e;
    }
    proof {
        assert(offset_pos(s@) == k as int);
    }
    if k >= n {
        return None;
    }
    let zc = s.get_char(k);
    let off: i64 = if zc == 'Z' || zc == 'z' {
        if n - k != 1 {
            return None;
        }
        0
    } else if zc == '+' || zc == '-' {
        if n - k != 6 {
            return None;
        }
        let oh1 = dec_of(s.get_char(k + 1));
        let oh0 = dec_of(s.get_char(k + 2));
        if s.get_char(k + 3) != ':' {
            return None;
        }
        let om1 = dec_of(s.get_char(k + 4));
        let om0 = dec_of(s.get_char(k + 5));
        if oh1 < 0 || oh0 < 0 || om1 < 0 || om0 < 0 {
            return None;
        }
        let oh: i64 = 10 * (oh1 as i64) + (oh0 as i64);
        let om: i64 = 10 * (om1 as i64) + (om0 as i64);
        if oh >= 24 || om >= 60 {
            return None;
        }
        if zc == '+' {
            oh * 3600 + om * 60
        } else {
            -(oh * 3600 + om * 60)
        }
    } else {
        return None;
    };
    proof {
        assert(off as int == offset_seconds(s@, k as int));
    }
    let t = days * 86400 + h * 3600 + mi * 60 + sec - off;
    Some(t)
}

/// The end of the run of decimal digits starting at `start`.
fn digits_end_from(s: &str, start: usize) -> (r: usize)
    requires
        start <= s@.len(),
    ensures
        r as int == digits_run_end(s@, start as int),
        start <= r <= s@.len(),
{
    let n = s.unicode_len();
    let mut j = start;
    while j < n
        invariant
            start <= j <= n,
            n == s@.len(),
            digits_run_end(s@, start as int) == digits_run_end(s@, j as int),
        decreases n - j,
    {
        if dec_of(s.get_char(j)) < 0 {
            proof {
                assert(digits_run_end(s@, j as int) == j as int);
            }
            return j;
        }
        j = j + 1;
    }
    proof {
        assert(digits_run_end(s@, n as int) == n as int);
    }
    j
}

/// Month lengths, leap-aware.
#[verifier::spinoff_prover]
#[verifier::rlimit(100)]
fn days_in_month_exec(y: i64, m: i64) -> (r: i64)
    requires
        1 <= m <= 12,
    ensures
        r as int == days_in_month(y as int, m as int),
        28 <= r <= 31,
{
    if m == 2 {
        if (y % 4 == 0 && y % 100 != 0) || y % 400 == 0 {
            29
        } else {
            28
        }
    } else if m == 4 || m == 6 || m == 9 || m == 11 {
        30
    } else {
        31
    }
}

/// Resolves a temporal wire value to epoch seconds.
pub fn timestamp_value(t: &WireTimestamp) -> (r: Result<i64, MappingError>)
    ensures
        match r {
            Ok(v) => ts_value(*t) == Some(v as int),
            Err(e) => e == MappingError::InvalidTimestamp && ts_value(*t) is None,
        },
{
    match t {
        WireTimestamp::Unix(n) => Ok(*n),
        WireTimestamp::Text(s) => match parse_rfc3339(s.as_str()) {
            Some(v) => Ok(v),
            None => Err(MappingError::InvalidTimestamp),
        },
    }
}

// ---------------------------------------------------------------------
// Wire records and the mapper.

/// A user node as the primary store serves it.
pub struct WireUser {
    pub id: WireRecordId,
    pub username: String,
    pub email: Option<String>,
    pub name: Option<String>,
    pub avatar: Option<String>,
    pub user_type: UserType,
    pub phone_number: Option<String>,
    pub created: WireTimestamp,
    pub updated: WireTimestamp,
}

/// A provider node as the primary store serves it.
pub struct WireProvider {
    pub id: WireRecordId,
    pub name: String,
}

/// The create/update payload the mapper emits: no server-assigned
/// field (identifier, creation time) is ever included, and the update
/// time is set only when the caller stamps it, enabling partial-merge
/// semantics.
pub struct WireUserInput {
    pub username: String,
    pub email: Option<String>,
    pub name: Option<String>,
    pub avatar: Option<String>,
    pub user_type: UserType,
    pub phone_number: Option<String>,
    pub updated: Option<WireTimestamp>,
}

/// Whether a wire user row maps cleanly: its identifier parses and
/// both temporal fields resolve.
pub open spec fn wire_user_ok(w: WireUser) -> bool {
    &&& parsed_id(w.id.raw@) is Some
    &&& ts_value(w.created) is Some
    &&& ts_value(w.updated) is Some
}

/// The domain value a clean wire user row maps to.
pub open spec fn mapped_user(w: WireUser) -> crate::UserV {
    crate::UserV {
        id: parsed_id(w.id.raw@).unwrap(),
        username: w.username@,
        email: view_opt_string(w.email),
        name: view_opt_string(w.name),
        avatar: view_opt_string(w.avatar),
        user_type: w.user_type,
        phone_number: view_opt_string(w.phone_number),
        created: ts_value(w.created).unwrap(),
        updated: ts_value(w.updated).unwrap(),
    }
}

/// The mapping error an unclean wire user row produces: the
/// identifier is checked before the temporal fields.
pub open spec fn wire_user_error(w: WireUser) -> MappingError {
    if parsed_id(w.id.raw@) is None {
        MappingError::InvalidIdentifier
    } else {
        MappingError::InvalidTimestamp
    }
}

/// Maps a wire user row to the domain entity.  A malformed identifier
/// or timestamp is a mapping error, never a silent default.
pub fn user_to_domain(w: &WireUser) -> (r: Result<User, MappingError>)
    ensures
        r is Ok <==> wire_user_ok(*w),
        r is Ok ==> r.unwrap()@ == mapped_user(*w),
        r matches Err(e) ==> e == wire_user_error(*w),
{
    let id = match record_id_to_uid(&w.id) {
        Ok(v) => v,
        Err(e) => {
            return Err(e);
        },
    };
    let created = match timestamp_value(&w.created) {
        Ok(v) => v,
        Err(e) => {
            return Err(e);
        },
    };
    let updated = match timestamp_value(&w.updated) {
        Ok(v) => v,
        Err(e) => {
            return Err(e);
        },
    };
    Ok(
        User {
            id,
            username: w.username.clone(),
            email: clone_opt_string(&w.email),
            name: clone_opt_string(&w.name),
            avatar: clone_opt_string(&w.avatar),
            user_type: w.user_type,
            phone_number: clone_opt_string(&w.phone_number),
            created,
            updated,
        },
    )
}

/// The domain value a clean wire provider node maps to.
pub open spec fn mapped_provider(w: WireProvider) -> crate::ProviderV {
    crate::ProviderV { id: parsed_id(w.id.raw@).unwrap(), name: w.name@ }
}

/// Maps a wire provider node to the domain entity.
pub fn provider_to_domain(w: &WireProvider) -> (r: Result<AccountProvider, MappingError>)
    ensures
        r is Ok <==> parsed_id(w.id.raw@) is Some,
        r is Ok ==> r.unwrap()@ == mapped_provider(*w),
        r matches Err(e) ==> e == MappingError::InvalidIdentifier,
{
    let id = match record_id_to_uid(&w.id) {
        Ok(v) => v,
        Err(e) => {
            return Err(e);
        },
    };
    Ok(AccountProvider { id, name: w.name.clone() })
}

/// Maps a domain entity to its create/update payload: only fields the
/// caller may change, never the identifier or the creation time.
pub fn user_to_wire(u: &User) -> (r: WireUserInput)
    ensures
        r.username@ == u.username@,
        view_opt_string(r.email) == view_opt_string(u.email),
        view_opt_string(r.name) == view_opt_string(u.name),
        view_opt_string(r.avatar) == view_opt_string(u.avatar),
        r.user_type == u.user_type,
        view_opt_string(r.phone_number) == view_opt_string(u.phone_number),
        r.updated is None,
{
    WireUserInput {
        username: u.username.clone(),
        email: clone_opt_string(&u.email),
        name: clone_opt_string(&u.name),
        avatar: clone_opt_string(&u.avatar),
        user_type: u.user_type,
        phone_number: clone_opt_string(&u.phone_number),
        updated: None,
    }
}

/// Maps a domain entity to an update payload: the changeable fields,
/// with the update time stamped so the store's merge records it.  The
/// identifier and creation time stay server-owned.
pub fn user_to_wire_update(u: &User, now: i64) -> (r: WireUserInput)
    ensures
        r.username@ == u.username@,
        view_opt_string(r.email) == view_opt_string(u.email),
        view_opt_string(r.name) == view_opt_string(u.name),
        view_opt_string(r.avatar) == view_opt_string(u.avatar),
        r.user_type == u.user_type,
        view_opt_string(r.phone_number) == view_opt_string(u.phone_number),
        (r.updated matches Some(t) && ts_value(t) == Some(now as int)),
{
    let mut input = user_to_wire(u);
    input.updated = Some(WireTimestamp::Unix(now));
    input
}

/// A canonical UUID rendering passes through decoration stripping
/// untouched: none of its characters is decoration.
proof fn lemma_strip_canonical(s: Seq<char>)
    requires
        forall|i: int| 0 <= i < s.len() ==> #[trigger] s[i] != ':' && s[i] != '\u{27e8}' && s[i]
            != '\u{27e9}',
    ensures
        strip_spec(s) == s,
    decreases s.len(),
{
    if s.len() > 0 {
        let t = s.drop_first();
        assert(forall|i: int| 0 <= i < t.len() ==> t[i] == s[i + 1]);
        lemma_strip_canonical(t);
        assert(strip_spec(s) =~= seq![s[0]] + t);
        assert(seq![s[0]] + t =~= s);
    }
}

/// Round trip: a wire row assembled from `user_to_wire`'s payload plus
/// the server-assigned identifier and timestamps maps back through
/// `user_to_domain` to an entity equal in every field except the
/// server-assigned ones, which carry the server's values.  Stated over
/// the identifier and timestamp forms the two functions' contracts
/// use: the rendered identifier parses back to its value, and a native
/// temporal value passes through unchanged.
pub proof fn lemma_wire_round_trip(v: u128, tc: i64, tu: i64)
    ensures
        parsed_id(uuid_chars(v)) == Some(v),
        ts_value(WireTimestamp::Unix(tc)) == Some(tc as int),
        ts_value(WireTimestamp::Unix(tu)) == Some(tu as int),
{
    crate::ids::lemma_uuid_round_trip(v);
    let s = uuid_chars(v);
    assert forall|i: int| 0 <= i < s.len() implies #[trigger] s[i] != ':' && s[i] != '\u{27e8}'
        && s[i] != '\u{27e9}' by {
        if !crate::ids::uuid_hyphen_position(i) {
            assert(crate::ids::hex_value(s[i]) >= 0);
        }
    }
    lemma_strip_canonical(s);
}

// ---------------------------------------------------------------------
// Relation rows: the two result shapes.

/// An untyped field value of a dynamic result document.
pub enum WireValue {
    Null,
    Number(i64),
    Text(String),
    UserNode(WireUser),
    ProviderNode(WireProvider),
}

/// An untyped dynamic result document: field names to values.
pub struct WireDoc {
    pub fields: Vec<(String, WireValue)>,
}

/// A relation row for the user—session—provider traversal: the typed
/// projection when the query language returns nested records, or a
/// dynamic document to be field-sniffed.
pub enum SessionRow {
    Typed(WireSessionRow),
    Dynamic(WireDoc),
}

/// The strict typed projection of a session edge with both endpoints.
pub struct WireSessionRow {
    pub id: WireRecordId,
    pub user: WireUser,
    pub provider: WireProvider,
    pub expires_at: WireTimestamp,
    pub session_token: String,
}

/// First field of a document with the given name.
pub open spec fn by_field(name: Seq<char>) -> spec_fn((String, WireValue)) -> bool {
    |p: (String, WireValue)| p.0@ == name
}

pub open spec fn doc_field(fields: Seq<(String, WireValue)>, name: Seq<char>) -> Option<WireValue> {
    match lookup_where(fields, by_field(name)) {
        Some(p) => Some(p.1),
        None => None,
    }
}

impl WireDoc {
    /// A reference to the first field with the given name.
    fn get(&self, name: &str) -> (r: Option<&WireValue>)
        ensures
            match r {
                Some(v) => doc_field(self.fields@, name@) == Some(*v),
                None => doc_field(self.fields@, name@) is None,
            },
    {
        let n = self.fields.len();
        for k in 0..n
            invariant
                n == self.fields.len(),
                forall|j: int| 0 <= j < k ==> !by_field(name@)(self.fields@[j]),
        {
            if crate::strutil::str_eq(&self.fields[k].0, &String::from_str(name)) {
                proof {
                    lemma_first_where_is(self.fields@, by_field(name@), k as int);
                }
                return Some(&self.fields[k].1);
            }
        }
        proof {
            lemma_first_where(self.fields@, by_field(name@));
        }
        None
    }
}

/// The four components a session row carries, whichever shape it
/// arrived in: both endpoint nodes, the expiry and the token.
pub ghost struct RowParts {
    pub user: WireUser,
    pub provider: WireProvider,
    pub expires_at: WireTimestamp,
    pub token: Seq<char>,
}

/// Whether the components map cleanly.
pub open spec fn parts_ok(p: RowParts) -> bool {
    &&& wire_user_ok(p.user)
    &&& parsed_id(p.provider.id.raw@) is Some
    &&& ts_value(p.expires_at) is Some
}

/// The (user, session) pair clean components decode to.
pub open spec fn parts_user(p: RowParts) -> crate::UserV {
    mapped_user(p.user)
}

pub open spec fn parts_session(p: RowParts) -> crate::SessionV {
    crate::SessionV {
        expires_at: ts_value(p.expires_at).unwrap(),
        session_token: p.token,
        account_provider: mapped_provider(p.provider),
        user_id: mapped_user(p.user).id,
    }
}

/// The mapping error unclean components produce: the user endpoint is
/// mapped first, then the provider endpoint, then the expiry.
pub open spec fn parts_error(p: RowParts) -> MappingError {
    if !wire_user_ok(p.user) {
        wire_user_error(p.user)
    } else if parsed_id(p.provider.id.raw@) is None {
        MappingError::InvalidIdentifier
    } else {
        MappingError::InvalidTimestamp
    }
}

/// The components of the strict typed projection.
pub open spec fn typed_parts(t: WireSessionRow) -> RowParts {
    RowParts {
        user: t.user,
        provider: t.provider,
        expires_at: t.expires_at,
        token: t.session_token@,
    }
}

/// The user node a dynamic document names under `"in"`, if any.
pub open spec fn doc_user(d: WireDoc) -> Option<WireUser> {
    match doc_field(d.fields@, "in"@) {
        Some(WireValue::UserNode(u)) => Some(u),
        _ => None,
    }
}

/// The provider node a dynamic document names under `"out"`, if any.
pub open spec fn doc_provider(d: WireDoc) -> Option<WireProvider> {
    match doc_field(d.fields@, "out"@) {
        Some(WireValue::ProviderNode(p)) => Some(p),
        _ => None,
    }
}

/// The expiry a dynamic document carries: text or a native value.
pub open spec fn doc_expires(d: WireDoc) -> Option<WireTimestamp> {
    match doc_field(d.fields@, "expires_at"@) {
        Some(WireValue::Text(v)) => Some(WireTimestamp::Text(v)),
        Some(WireValue::Number(n)) => Some(WireTimestamp::Unix(n)),
        _ => None,
    }
}

/// The session token a dynamic document carries, if any.
pub open spec fn doc_token(d: WireDoc) -> Option<Seq<char>> {
    match doc_field(d.fields@, "session_token"@) {
        Some(WireValue::Text(v)) => Some(v@),
        _ => None,
    }
}

/// Whether a dynamic document has the expected shape: all four
/// components present with their expected kinds.
pub open spec fn dynamic_shape_ok(d: WireDoc) -> bool {
    &&& doc_user(d) is Some
    &&& doc_provider(d) is Some
    &&& doc_expires(d) is Some
    &&& doc_token(d) is Some
}

/// The components a well-shaped dynamic document carries.
pub open spec fn dynamic_parts(d: WireDoc) -> RowParts {
    RowParts {
        user: doc_user(d).unwrap(),
        provider: doc_provider(d).unwrap(),
        expires_at: doc_expires(d).unwrap(),
        token: doc_token(d).unwrap(),
    }
}

/// The error a malformed dynamic shape produces, in sniffing order:
/// user endpoint, provider endpoint, expiry, token.
pub open spec fn dynamic_shape_error(d: WireDoc) -> MappingError {
    if doc_user(d) is None {
        MappingError::InvalidIdentifier
    } else if doc_provider(d) is None {
        MappingError::InvalidIdentifier
    } else if doc_expires(d) is None {
        MappingError::InvalidTimestamp
    } else {
        MappingError::InvalidIdentifier
    }
}

/// The components of a session row: a typed projection always has
/// them; a dynamic document has them exactly when its shape is as
/// expected.
pub open spec fn row_parts(row: SessionRow) -> Option<RowParts> {
    match row {
        SessionRow::Typed(t) => Some(typed_parts(t)),
        SessionRow::Dynamic(d) => if dynamic_shape_ok(d) {
            Some(dynamic_parts(d))
        } else {
            None
        },
    }
}

/// Both result shapes decode to the same value: a typed projection
/// and a dynamic document carrying the same components have the same
/// row parts, so the decoder's contract forces the same result.
pub proof fn lemma_row_shapes_agree(t: WireSessionRow, d: WireDoc)
    requires
        doc_user(d) == Some(t.user),
        doc_provider(d) == Some(t.provider),
        doc_expires(d) == Some(t.expires_at),
        doc_token(d) == Some(t.session_token@),
    ensures
        row_parts(SessionRow::Typed(t)) == row_parts(SessionRow::Dynamic(d)),
{
    assert(dynamic_parts(d) == typed_parts(t));
}

/// Decodes a session relation row, trying the strict typed shape
/// first and field-sniffing the dynamic document otherwise.  Success
/// exactly when the components are present and map cleanly; the
/// result is the mapped pair; every failure carries the error of the
/// first component that broke.
pub fn decode_session_row(row: &SessionRow) -> (r: Result<(User, Session), MappingError>)
    ensures
        match row_parts(*row) {
            Some(p) => if parts_ok(p) {
                &&& r is Ok
                &&& r.unwrap().0@ == parts_user(p)
                &&& r.unwrap().1@ == parts_session(p)
            } else {
                r matches Err(e) && e == parts_error(p)
            },
            None => r matches Err(e) && e == dynamic_shape_error(row->Dynamic_0),
        },
{
    match row {
        SessionRow::Typed(t) => decode_typed_row(t),
        SessionRow::Dynamic(d) => {
            // Field-sniff the document: the typed fields must all be
            // present with their expected kinds.
            let user_w = match d.get("in") {
                Some(WireValue::UserNode(u)) => u,
                _ => {
                    return Err(MappingError::InvalidIdentifier);
                },
            };
            let provider_w = match d.get("out") {
                Some(WireValue::ProviderNode(p)) => p,
                _ => {
                    return Err(MappingError::InvalidIdentifier);
                },
            };
            let expires_w = match d.get("expires_at") {
                Some(WireValue::Text(v)) => WireTimestamp::Text(v.clone()),
                Some(WireValue::Number(n)) => WireTimestamp::Unix(*n),
                _ => {
                    return Err(MappingError::InvalidTimestamp);
                },
            };
            let token = match d.get("session_token") {
                Some(WireValue::Text(v)) => v.clone(),
                _ => {
                    return Err(MappingError::InvalidIdentifier);
                },
            };
            let ghost p = dynamic_parts(*d);
            proof {
                assert(p.user == *user_w);
                assert(p.provider == *provider_w);
                assert(p.expires_at == expires_w);
                assert(p.token == token@);
            }
            let user = match user_to_domain(user_w) {
                Ok(u) => u,
                Err(e) => {
                    return Err(e);
                },
            };
            let provider = match provider_to_domain(provider_w) {
                Ok(pr) => pr,
                Err(e) => {
                    return Err(e);
                },
            };
            let expires_at = match timestamp_value(&expires_w) {
                Ok(v) => v,
                Err(e) => {
                    return Err(e);
                },
            };
            let user_id = user.id;
            let sess = Session {
                expires_at,
                session_token: token,
                account_provider: provider,
                user_id,
            };
            proof {
                assert(user@ == parts_user(p));
                assert(sess@ == parts_session(p));
            }
            Ok((user, sess))
        },
    }
}

/// Decodes the strict typed projection.
fn decode_typed_row(t: &WireSessionRow) -> (r: Result<(User, Session), MappingError>)
    ensures
        ({
            let p = typed_parts(*t);
            if parts_ok(p) {
                &&& r is Ok
                &&& r.unwrap().0@ == parts_user(p)
                &&& r.unwrap().1@ == parts_session(p)
            } else {
                r matches Err(e) && e == parts_error(p)
            }
        }),
{
    let user = match user_to_domain(&t.user) {
        Ok(u) => u,
        Err(e) => {
            return Err(e);
        },
    };
    let provider = match provider_to_domain(&t.provider) {
        Ok(p) => p,
        Err(e) => {
            return Err(e);
        },
    };
    let expires_at = match timestamp_value(&t.expires_at) {
        Ok(v) => v,
        Err(e) => {
            return Err(e);
        },
    };
    let user_id = user.id;
    let sess = Session {
        expires_at,
        session_token: t.session_token.clone(),
        account_provider: provider,
        user_id,
    };
    proof {
        assert(user@ == parts_user(typed_parts(*t)));
        assert(sess@ == parts_session(typed_parts(*t)));
    }
    Ok((user, sess))
}

} // verus!
