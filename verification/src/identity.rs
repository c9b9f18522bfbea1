//! Who a worker is: a random identifier and a name, and how the worker is shown to humans.

use vstd::prelude::*;
use vstd::arithmetic::power2::pow2;
use crate::text::push_char;

verus! {

/// The lowercase hexadecimal digit of a value below 16.
pub open spec fn hex_digit(d: nat) -> char {
    if d < 10 {
        (48 + d) as char
    } else {
        (87 + d) as char
    }
}

/// The `j`-th hexadecimal digit of a 128-bit value, the most significant first.
pub open spec fn nibble(u: u128, j: int) -> nat {
    ((u as nat) / pow2((4 * (31 - j)) as nat)) % 16
}

/// How many hyphens come before position `i` of the hyphenated text of a UUID.
pub open spec fn hyphens_before(i: int) -> int {
    (if i > 8 { 1int } else { 0 }) + (if i > 13 { 1int } else { 0 }) + (if i > 18 { 1int } else { 0 })
        + (if i > 23 { 1int } else { 0 })
}

/// The hyphenated text of a UUID: its 32 lowercase hexadecimal digits, most significant
/// first, in groups of 8, 4, 4, 4 and 12 separated by hyphens.
pub open spec fn uuid_text(u: u128) -> Seq<char> {
    Seq::new(
        36,
        |i: int|
            if i == 8 || i == 13 || i == 18 || i == 23 {
                '-'
            } else {
                hex_digit(nibble(u, i - hyphens_before(i)))
            },
    )
}

/// A new random version-4 UUID, as a 128-bit value.
///
/// Trusted: calls `uuid::Uuid::new_v4` and `Uuid::as_u128`. The source sets the version
/// nibble (bits 76 to 79) to 4 and the two variant bits (62 and 63) to `10`; the other bits
/// are random, and nothing is said of them.
#[verifier::external_body]
fn new_uuid_v4() -> (r: u128)
    ensures
        (r >> 76u128) & 0xfu128 == 4,
        (r >> 62u128) & 0x3u128 == 2,
{
    uuid::Uuid::new_v4().as_u128()
}

/// The hyphenated lowercase text of a UUID.
///
/// Trusted: calls `uuid::Uuid::from_u128` and the `Display` of `Uuid` (through `to_string`),
/// which the source writes as the hyphenated lowercase hexadecimal form, the most significant
/// byte first.
#[verifier::external_body]
pub(crate) fn uuid_string(u: u128) -> (r: String)
    ensures
        r@ == uuid_text(u),
{
    uuid::Uuid::from_u128(u).to_string()
}

/// The identity of a worker.
pub struct WorkerInfo {
    /// The identifier of the worker.
    pub uuid: u128,
    /// The name of the worker.
    pub name: String,
}

/// How a worker is shown: its name in quotes, then its identifier in brackets.
pub open spec fn worker_text(name: Seq<char>, uuid: u128) -> Seq<char> {
    seq!['\''] + name + "' ("@ + uuid_text(uuid) + seq![')']
}

impl WorkerInfo {
    /// A worker with this name and a new random identifier.
    pub fn new(name: String) -> (r: WorkerInfo)
        ensures
            r.name == name,
            (r.uuid >> 76u128) & 0xfu128 == 4,
            (r.uuid >> 62u128) & 0x3u128 == 2,
    {
        WorkerInfo { uuid: new_uuid_v4(), name }
    }

    /// The worker as shown to humans, as in `'name' (uuid)`.
    pub fn describe(&self) -> (r: String)
        ensures
            r@ == worker_text(self.name@, self.uuid),
    {
        let mut r = String::new();
        push_char(&mut r, '\'');
        r.append(self.name.as_str());
        r.append("' (");
        let id = uuid_string(self.uuid);
        r.append(id.as_str());
        push_char(&mut r, ')');
        assert(r@ =~= worker_text(self.name@, self.uuid));
        r
    }
}

} // verus!
