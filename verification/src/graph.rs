//! Requests to the Graph API of an OpenCloud server and the reading of its
//! replies.
use vstd::prelude::*;
use crate::text::{chars_of, string_of, trim_end, trim_end_chars, decimal, decimal_exec};
use crate::bindings::{
    url_error, parse_url_path,
    json_array_len_at, json_error, json_str_at, json_parse_error, json_pointer_array_len,
    json_pointer_str, lowercase, to_lowercase,
};
use crate::order::{
    SortKey, key_view, key_views, stable_order, is_stable_order, arranged, stably_sorted_by,
};
use crate::cloud::{Space, SpaceModel, UserInfo, space_views};

verus! {

// ---------------------------------------------------------------------
// Graph API replies
// ---------------------------------------------------------------------

/// `base` without trailing slashes, followed by `endpoint`.
pub open spec fn endpoint_url(base: Seq<char>, endpoint: Seq<char>) -> Seq<char> {
    trim_end(base, '/') + endpoint
}

/// The URL of `endpoint` on the server at `base`.
pub fn api_url(base: &str, endpoint: &str) -> (r: String)
    ensures
        r@ == endpoint_url(base@, endpoint@),
{
    let b = chars_of(base);
    let mut r = string_of(trim_end_chars(b.as_slice(), '/').as_slice());
    r.append(endpoint);
    r
}

/// The URL of the signed-in user's profile.
pub fn user_url(base: &str) -> (r: String)
    ensures
        r@ == endpoint_url(base@, "/graph/v1.0/me"@),
{
    api_url(base, "/graph/v1.0/me")
}

/// The URL of the signed-in user's drives.
pub fn drives_url(base: &str) -> (r: String)
    ensures
        r@ == endpoint_url(base@, "/graph/v1.0/me/drives"@),
{
    api_url(base, "/graph/v1.0/me/drives")
}

/// The error for a request URL that does not parse.
pub open spec fn request_url_error(url: Seq<char>) -> Option<Seq<char>> {
    match url_error(url) {
        Some(e) => Some("URL-Fehler: "@ + e),
        None => None,
    }
}

/// Checks that `url` parses before a request is sent to it.
pub fn check_request_url(url: &str) -> (r: Result<(), String>)
    ensures
        match r {
            Ok(()) => request_url_error(url@) is None,
            Err(e) => request_url_error(url@) == Some(e@),
        },
{
    match parse_url_path(url) {
        Ok(_) => Ok(()),
        Err(e) => {
            let mut m = String::from_str("URL-Fehler: ");
            m.append(e.as_str());
            Err(m)
        },
    }
}

/// The error that a Graph API reply with HTTP status `status` (shown as
/// `status_text`) gives: an expired session for 401, any other status
/// outside 200..=299 names the status.
pub open spec fn api_status_error(status: u16, status_text: Seq<char>) -> Option<Seq<char>> {
    if status == 401 {
        Some("sitzung_abgelaufen"@)
    } else if !(200 <= status <= 299) {
        Some("API-Fehler "@ + status_text)
    } else {
        None
    }
}

/// Checks the HTTP status of a Graph API reply.
pub fn check_api_status(status: u16, status_text: &str) -> (r: Result<(), String>)
    ensures
        match r {
            Ok(()) => api_status_error(status, status_text@) is None,
            Err(e) => api_status_error(status, status_text@) == Some(e@),
        },
        r is Ok <==> 200 <= status <= 299,
{
    if status == 401 {
        Err(String::from_str("sitzung_abgelaufen"))
    } else if !(200 <= status && status <= 299) {
        let mut e = String::from_str("API-Fehler ");
        e.append(status_text);
        Err(e)
    } else {
        Ok(())
    }
}

/// The error for a reply body that is not JSON.
pub open spec fn json_failure(message: Seq<char>) -> Seq<char> {
    "JSON-Fehler: "@ + message
}

/// The name shown for the user whose profile is `body`: the display name,
/// else the mail address, else "Unbekannt".
pub open spec fn profile_name(body: Seq<char>) -> Seq<char> {
    match json_str_at(body, "/displayName"@) {
        Some(n) => n,
        None => match json_str_at(body, "/mail"@) {
            Some(m) => m,
            None => "Unbekannt"@,
        },
    }
}

/// Reads the user from the JSON profile `body`.
pub fn user_from_json(body: &str) -> (r: Result<UserInfo, String>)
    ensures
        match r {
            Ok(u) => json_error(body@) is None && u@ == profile_name(body@),
            Err(e) => json_error(body@) matches Some(m) && e@ == json_failure(m),
        },
{
    if let Some(m) = json_parse_error(body) {
        let mut e = String::from_str("JSON-Fehler: ");
        e.append(m.as_str());
        return Err(e);
    }
    let name = match json_pointer_str(body, "/displayName") {
        Some(n) => n,
        None => match json_pointer_str(body, "/mail") {
            Some(m) => m,
            None => String::from_str("Unbekannt"),
        },
    };
    Ok(UserInfo { name })
}

// ---------------------------------------------------------------------
// Spaces
// ---------------------------------------------------------------------

/// The JSON pointer to `field` of the `i`-th drive of a drive list.
pub open spec fn drive_pointer(i: nat, field: Seq<char>) -> Seq<char> {
    "/value/"@ + decimal(i) + "/"@ + field
}

/// The string at `field` of the `i`-th drive, or the empty string.
pub open spec fn drive_field(body: Seq<char>, i: nat, field: Seq<char>) -> Seq<char> {
    match json_str_at(body, drive_pointer(i, field)) {
        Some(s) => s,
        None => seq![],
    }
}

/// The number of drives in a drive list: the length of its `value` array,
/// or 0 when there is none.
pub open spec fn drive_count(body: Seq<char>) -> nat {
    match json_array_len_at(body, "/value"@) {
        Some(n) => n,
        None => 0,
    }
}

/// The `i`-th drive of a drive list.
pub open spec fn drive_record(body: Seq<char>, i: nat) -> SpaceModel {
    SpaceModel {
        id: drive_field(body, i, "id"@),
        name: drive_field(body, i, "name"@),
        drive_type: drive_field(body, i, "driveType"@),
    }
}

/// The drives of a drive list, in the order of the list.
pub open spec fn drive_records(body: Seq<char>) -> Seq<SpaceModel> {
    Seq::new(drive_count(body), |i: int| drive_record(body, i as nat))
}

/// Spaces are listed personal drives first, then by lower-cased name.
pub open spec fn space_key(s: SpaceModel) -> (bool, Seq<char>) {
    (s.drive_type != "personal"@, lowercase(s.name))
}

/// The string at `field` of the `i`-th drive, or the empty string.
fn drive_field_exec(body: &str, i: usize, field: &str) -> (r: String)
    ensures
        r@ == drive_field(body@, i as nat, field@),
{
    let mut pointer = String::from_str("/value/");
    let digits = decimal_exec(i as u64);
    pointer.append(string_of(digits.as_slice()).as_str());
    pointer.append("/");
    pointer.append(field);
    match json_pointer_str(body, pointer.as_str()) {
        Some(s) => s,
        None => String::new(),
    }
}

/// The sort key of a space.
fn space_sort_key(s: &Space) -> (k: SortKey)
    ensures
        key_view(k) == space_key(s@),
{
    let personal = String::from_str("personal");
    let lower = to_lowercase(s.name.as_str());
    SortKey { late: !(s.drive_type == personal), name: chars_of(lower.as_str()) }
}

/// Copies of `items` at the positions `order`, in that order.
fn arrange_spaces(items: &Vec<Space>, order: &Vec<usize>) -> (r: Vec<Space>)
    requires
        forall|k: int| 0 <= k < order@.len() ==> #[trigger] order@[k] < items@.len(),
    ensures
        space_views(r@) == arranged(space_views(items@), order@),
{
    let mut r: Vec<Space> = Vec::new();
    let mut k: usize = 0;
    while k < order.len()
        invariant
            k <= order@.len(),
            forall|m: int| 0 <= m < order@.len() ==> #[trigger] order@[m] < items@.len(),
            space_views(r@) == arranged(space_views(items@), order@).take(k as int),
        decreases order@.len() - k,
    {
        let s = items[order[k]].duplicate();
        proof {
            assert(space_views(r@.push(s)) =~= space_views(r@).push(s@));
            assert(arranged(space_views(items@), order@).take(k + 1) =~= arranged(
                space_views(items@),
                order@,
            ).take(k as int).push(s@));
        }
        r.push(s);
        k = k + 1;
    }
    assert(arranged(space_views(items@), order@).take(order@.len() as int) =~= arranged(
        space_views(items@),
        order@,
    ));
    r
}

/// Reads the spaces from the JSON drive list `body`, personal drives
/// first, then by lower-cased name; drives that compare equal keep their
/// order. A missing field reads as the empty string.
pub fn spaces_from_json(body: &str) -> (r: Result<Vec<Space>, String>)
    ensures
        match r {
            Ok(v) => json_error(body@) is None && stably_sorted_by(
                drive_records(body@),
                |s: SpaceModel| space_key(s),
                space_views(v@),
            ) && v@.len() == drive_count(body@) && forall|i: nat|
                i < drive_count(body@) ==> space_views(v@).contains(
                    #[trigger] drive_record(body@, i),
                ),
            Err(e) => json_error(body@) matches Some(m) && e@ == json_failure(m),
        },
{
    if let Some(m) = json_parse_error(body) {
        let mut e = String::from_str("JSON-Fehler: ");
        e.append(m.as_str());
        return Err(e);
    }
    let n = match json_pointer_array_len(body, "/value") {
        Some(n) => n,
        None => 0,
    };
    let ghost recs = drive_records(body@);
    let ghost key_fn = |s: SpaceModel| space_key(s);
    let mut items: Vec<Space> = Vec::new();
    let mut keys: Vec<SortKey> = Vec::new();
    let mut i: usize = 0;
    while i < n
        invariant
            n == drive_count(body@),
            recs == drive_records(body@),
            key_fn == (|s: SpaceModel| space_key(s)),
            i <= n,
            space_views(items@) == recs.take(i as int),
            key_views(keys@) == recs.take(i as int).map_values(key_fn),
        decreases n - i,
    {
        let id = drive_field_exec(body, i, "id");
        let name = drive_field_exec(body, i, "name");
        let drive_type = drive_field_exec(body, i, "driveType");
        let s = Space { id, name, drive_type };
        let k = space_sort_key(&s);
        proof {
            assert(s@ == recs[i as int]);
            assert(recs.take(i + 1) =~= recs.take(i as int).push(s@));
            assert(space_views(items@.push(s)) =~= space_views(items@).push(s@));
            assert(key_views(keys@.push(k)) =~= key_views(keys@).push(key_view(k)));
            assert(recs.take(i + 1).map_values(key_fn) =~= recs.take(i as int).map_values(
                key_fn,
            ).push(key_fn(s@)));
        }
        items.push(s);
        keys.push(k);
        i = i + 1;
    }
    assert(recs.take(n as int) =~= recs);
    let order = stable_order(&keys);
    let out = arrange_spaces(&items, &order);
    assert(is_stable_order(recs.map_values(key_fn), order@));
    assert(space_views(out@) == arranged(recs, order@));
    proof {
        law_every_drive_listed(body@, space_views(out@));
    }
    Ok(out)
}

// ---------------------------------------------------------------------
// Laws
// ---------------------------------------------------------------------

/// Trailing slashes of the server URL do not change an endpoint's URL.
pub proof fn law_endpoint_ignores_trailing_slash(base: Seq<char>, endpoint: Seq<char>)
    ensures
        endpoint_url(base.push('/'), endpoint) == endpoint_url(base, endpoint),
{
    crate::text::law_trim_end_push(base, '/');
}

/// In a space list no other drive comes before a personal one, and within
/// each group the lower-cased names never decrease.
pub proof fn law_personal_spaces_first(drives: Seq<SpaceModel>, spaces: Seq<SpaceModel>)
    requires
        stably_sorted_by(drives, |s: SpaceModel| space_key(s), spaces),
    ensures
        forall|i: int, j: int|
            0 <= i < j < spaces.len() && spaces[j].drive_type == "personal"@
                ==> spaces[i].drive_type == "personal"@,
        forall|i: int, j: int|
            0 <= i < j < spaces.len() && (spaces[i].drive_type == "personal"@)
                == (spaces[j].drive_type == "personal"@) ==> !crate::text::lex_less(
                lowercase(spaces[j].name),
                lowercase(spaces[i].name),
            ),
{
    let key_fn = |s: SpaceModel| space_key(s);
    let p = choose|p: Seq<usize>|
        is_stable_order(drives.map_values(key_fn), p) && spaces == arranged(drives, p);
    let keys = drives.map_values(key_fn);
    assert forall|i: int, j: int| 0 <= i < j < spaces.len() implies !crate::order::key_before(
        space_key(spaces[j]),
        space_key(spaces[i]),
    ) by {
        assert(spaces[i] == drives[p[i] as int]);
        assert(spaces[j] == drives[p[j] as int]);
        assert(keys[p[i] as int] == space_key(drives[p[i] as int]));
        assert(keys[p[j] as int] == space_key(drives[p[j] as int]));
    }
    assert forall|i: int, j: int|
        0 <= i < j < spaces.len() && spaces[j].drive_type == "personal"@ implies spaces[i].drive_type
        == "personal"@ by {
        assert(!crate::order::key_before(space_key(spaces[j]), space_key(spaces[i])));
    }
    assert forall|i: int, j: int|
        0 <= i < j < spaces.len() && (spaces[i].drive_type == "personal"@) == (spaces[j].drive_type
            == "personal"@) implies !crate::text::lex_less(
        lowercase(spaces[j].name),
        lowercase(spaces[i].name),
    ) by {
        assert(!crate::order::key_before(space_key(spaces[j]), space_key(spaces[i])));
    }
}

/// A Graph API reply is accepted exactly when its status is a success (200
/// to 299); every other status is an error, 401 the expired session.
pub proof fn law_api_success_statuses(status: u16, status_text: Seq<char>)
    ensures
        api_status_error(status, status_text) is None <==> 200 <= status <= 299,
        status == 401 ==> api_status_error(status, status_text) == Some("sitzung_abgelaufen"@),
        status != 401 && !(200 <= status <= 299) ==> api_status_error(status, status_text) == Some(
            "API-Fehler "@ + status_text,
        ),
{
}

/// Every drive of the reply is listed, none left out and none added: the
/// listing has as many spaces as the reply's `value` array has elements
/// (none when there is no such array), each position of the array gives
/// exactly one space, and the drive read at each position is listed.
pub proof fn law_every_drive_listed(body: Seq<char>, spaces: Seq<SpaceModel>)
    requires
        stably_sorted_by(drive_records(body), |s: SpaceModel| space_key(s), spaces),
    ensures
        spaces.len() == (match json_array_len_at(body, "/value"@) {
            Some(n) => n,
            None => 0,
        }),
        exists|p: Seq<usize>|
            crate::order::is_permutation(p, spaces.len()) && forall|k: int|
                0 <= k < spaces.len() ==> #[trigger] spaces[k] == drive_record(body, p[k] as nat),
        forall|i: nat|
            i < spaces.len() ==> spaces.contains(#[trigger] drive_record(body, i)),
{
    let key_fn = |s: SpaceModel| space_key(s);
    let recs = drive_records(body);
    crate::order::law_sorting_keeps_items(recs, key_fn, spaces);
    let p = choose|p: Seq<usize>|
        is_stable_order(recs.map_values(key_fn), p) && spaces == arranged(recs, p);
    assert forall|k: int| 0 <= k < spaces.len() implies #[trigger] spaces[k] == drive_record(
        body,
        p[k] as nat,
    ) by {
        assert(spaces[k] == recs[p[k] as int]);
    }
    assert forall|i: nat| i < spaces.len() implies spaces.contains(
        #[trigger] drive_record(body, i),
    ) by {
        assert(recs[i as int] == drive_record(body, i));
    }
}

} // verus!
