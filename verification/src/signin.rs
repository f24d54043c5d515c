//! Reading the answers of the services that sign a player in.
//!
//! Signing in goes through five services in turn. Each answers with a JSON
//! document; what is read out of it is told here, and so is what is written
//! into the next request.

use crate::account::Account;
use crate::json::{items, member, member_text, text, Json};
use crate::text::{append_chars, chars_of, same_chars, string_of};
use vstd::prelude::*;

verus! {

/// What the player needs to authorise this device.
#[derive(Debug)]
pub struct DeviceGrant {
    /// The code that the player types in.
    pub user_code: String,
    /// The code that this device asks about.
    pub device_code: String,
    /// The page on which the player types the code in.
    pub verification_uri: String,
}

/// How asking whether the player has authorised this device ended.
#[derive(Debug)]
pub enum Poll {
    /// The player has not done so yet: ask again.
    Pending,
    /// The service refused, for the reason given.
    Refused(String),
    /// The player has: here is the access token.
    Granted(String),
    /// The answer names neither an error nor a token.
    Unreadable,
}

/// The token of the gaming service and the hash that names the player in it.
#[derive(Debug)]
pub struct XboxToken {
    /// The token.
    pub token: String,
    /// The player's hash.
    pub user_hash: String,
}

/// The player's hash in the answer of the gaming service: the string `uhs`
/// of the first member of `xui` in `DisplayClaims`.
pub open spec fn user_hash_in(doc: Json) -> Option<Seq<char>> {
    match member(doc, "DisplayClaims"@) {
        Some(claims) => match member(claims, "xui"@) {
            Some(list) => match items(list) {
                Some(entries) => if entries.len() > 0 {
                    member_text(entries[0], "uhs"@)
                } else {
                    None
                },
                None => None,
            },
            None => None,
        },
        None => None,
    }
}

/// Reads what the player needs to authorise this device; `None` where one
/// of the three strings is missing.
pub fn device_grant(doc: &Json) -> (r: Option<DeviceGrant>)
    ensures
        match r {
            Some(grant) => {
                &&& member_text(*doc, "user_code"@) == Some(grant.user_code@)
                &&& member_text(*doc, "device_code"@) == Some(grant.device_code@)
                &&& member_text(*doc, "verification_uri"@) == Some(grant.verification_uri@)
            },
            None => member_text(*doc, "user_code"@) is None || member_text(*doc, "device_code"@)
                is None || member_text(*doc, "verification_uri"@) is None,
        },
{
    let user_code = match doc.text_at("user_code") {
        Some(found) => found.clone(),
        None => {
            return None;
        },
    };
    let device_code = match doc.text_at("device_code") {
        Some(found) => found.clone(),
        None => {
            return None;
        },
    };
    let verification_uri = match doc.text_at("verification_uri") {
        Some(found) => found.clone(),
        None => {
            return None;
        },
    };
    Some(DeviceGrant { user_code, device_code, verification_uri })
}

/// Reads how asking whether the player has authorised this device ended.
/// An error named `authorization_pending` means to ask again; any other
/// error ends the attempt; without an error the access token is read.
pub fn poll_outcome(doc: &Json) -> (r: Poll)
    ensures
        match member_text(*doc, "error"@) {
            Some(error) => if error == "authorization_pending"@ {
                r is Pending
            } else {
                r matches Poll::Refused(reason) && reason@ == error
            },
            None => match member_text(*doc, "access_token"@) {
                Some(token) => r matches Poll::Granted(granted) && granted@ == token,
                None => r is Unreadable,
            },
        },
{
    match doc.text_at("error") {
        Some(error) => {
            if same_chars(&chars_of(error.as_str()), &chars_of("authorization_pending")) {
                Poll::Pending
            } else {
                Poll::Refused(error.clone())
            }
        },
        None => match doc.text_at("access_token") {
            Some(token) => Poll::Granted(token.clone()),
            None => Poll::Unreadable,
        },
    }
}

/// Reads the token of the gaming service and the player's hash.
pub fn xbox_token(doc: &Json) -> (r: Option<XboxToken>)
    ensures
        match r {
            Some(found) => member_text(*doc, "Token"@) == Some(found.token@) && user_hash_in(*doc)
                == Some(found.user_hash@),
            None => member_text(*doc, "Token"@) is None || user_hash_in(*doc) is None,
        },
{
    let token = match doc.text_at("Token") {
        Some(found) => found.clone(),
        None => {
            return None;
        },
    };
    let claims = match doc.get("DisplayClaims") {
        Some(claims) => claims,
        None => {
            return None;
        },
    };
    let entries = match claims.array_at("xui") {
        Some(entries) => entries,
        None => {
            return None;
        },
    };
    if entries.len() == 0 {
        return None;
    }
    match entries[0].text_at("uhs") {
        Some(hash) => Some(XboxToken { token, user_hash: hash.clone() }),
        None => None,
    }
}

/// Reads the string under `key`.
pub fn token_at(doc: &Json, key: &str) -> (r: Option<String>)
    ensures
        match r {
            Some(found) => member_text(*doc, key@) == Some(found@),
            None => member_text(*doc, key@) is None,
        },
{
    match doc.text_at(key) {
        Some(found) => Some(found.clone()),
        None => None,
    }
}

/// Reads the player's profile: an online account with the name and the
/// identifier that the profile gives.
pub fn profile_account(doc: &Json) -> (r: Option<Account>)
    ensures
        match r {
            Some(account) => {
                &&& member_text(*doc, "name"@) == Some(account@.name)
                &&& member_text(*doc, "id"@) == account@.uuid
                &&& account@.uuid is Some
                &&& !account.offline
            },
            None => member_text(*doc, "name"@) is None || member_text(*doc, "id"@) is None,
        },
{
    let name = match doc.text_at("name") {
        Some(found) => found.clone(),
        None => {
            return None;
        },
    };
    match doc.text_at("id") {
        Some(id) => Some(Account { name, uuid: Some(id.clone()), offline: false }),
        None => None,
    }
}

/// `head`, then `tail`.
fn joined(head: &str, tail: &str) -> (out: String)
    ensures
        out@ == head@ + tail@,
{
    let mut chars = chars_of(head);
    append_chars(&mut chars, &chars_of(tail));
    string_of(&chars)
}

/// The ticket that the gaming service is asked with: `d=`, then the access token.
pub fn rps_ticket(access_token: &str) -> (ticket: String)
    ensures
        ticket@ == "d="@ + access_token@,
{
    joined("d=", access_token)
}

/// The identity that the game's service is asked with: `XBL3.0 x=`, the
/// player's hash, a semicolon, the token.
pub fn identity_token(user_hash: &str, token: &str) -> (identity: String)
    ensures
        identity@ == "XBL3.0 x="@ + user_hash@ + ";"@ + token@,
{
    let mut chars = chars_of("XBL3.0 x=");
    append_chars(&mut chars, &chars_of(user_hash));
    append_chars(&mut chars, &chars_of(";"));
    append_chars(&mut chars, &chars_of(token));
    string_of(&chars)
}

/// The header that the profile is asked with: `Bearer `, then the token.
pub fn bearer(token: &str) -> (header: String)
    ensures
        header@ == "Bearer "@ + token@,
{
    joined("Bearer ", token)
}

} // verus!
