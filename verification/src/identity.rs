//! Document identifiers: `dash-` followed by a random UUID in its canonical form.

use vstd::prelude::*;
use vstd::string::*;

verus! {

/// A lower-case hexadecimal digit.
pub open spec fn is_lower_hex(c: char) -> bool {
    let p = c as u32;
    0x30 <= p <= 0x39 || 0x61 <= p <= 0x66
}

/// The canonical form of a UUID: 32 lower-case hexadecimal digits in groups of
/// 8, 4, 4, 4 and 12, with a hyphen between the groups.
pub open spec fn is_uuid_text(s: Seq<char>) -> bool {
    &&& s.len() == 36
    &&& forall|i: int|
        0 <= i < 36 ==> if i == 8 || i == 13 || i == 18 || i == 23 {
            #[trigger] s[i] == '-'
        } else {
            is_lower_hex(s[i])
        }
}

/// The canonical form of a UUID of version 4: the digit after the second
/// hyphen is `4`, and the one after the third is `8`, `9`, `a` or `b`.
pub open spec fn is_random_uuid_text(s: Seq<char>) -> bool {
    &&& is_uuid_text(s)
    &&& s[14] == '4'
    &&& (s[19] == '8' || s[19] == '9' || s[19] == 'a' || s[19] == 'b')
}

/// An identifier as the store assigns it.
pub open spec fn is_dashboard_id(s: Seq<char>) -> bool {
    exists|uuid: Seq<char>| is_random_uuid_text(uuid) && s == #[trigger] id_text(uuid)
}

/// The identifier made from a UUID's text.
pub open spec fn id_text(uuid: Seq<char>) -> Seq<char> {
    "dash-"@ + uuid
}

/// `uuid::Uuid::new_v4` draws a random UUID of version 4, and its `Display`
/// writes it in the canonical form. Which UUID comes is not known. The draw
/// panics where the operating system hands out no random bytes.
#[verifier::external_body]
fn random_uuid_text() -> (text: String)
    ensures
        is_random_uuid_text(text@),
{
    uuid::Uuid::new_v4().to_string()
}

/// The identifier for the UUID written in `uuid`.
pub fn dashboard_id(uuid: &str) -> (id: String)
    ensures
        id@ == id_text(uuid@),
{
    let mut id = String::from_str("dash-");
    id.append(uuid);
    id
}

/// A fresh identifier. Nothing checks it against the identifiers in use: that
/// two draws agree is improbable, not impossible.
pub fn new_dashboard_id() -> (id: String)
    ensures
        is_dashboard_id(id@),
{
    let uuid = random_uuid_text();
    dashboard_id(uuid.as_str())
}

} // verus!
