//! Server profiles (kept in `profiles.json`; their secrets live in the
//! system key ring), and the random access key of a new profile.

use vstd::prelude::*;
use rand::Rng;
use crate::records::{
    find_key, has_key, lemma_index_of_key, lookup, merge, merged, remove_key, upsert, upserted,
    without_key, Keyed,
};
use crate::text::{push_char, push_str};
use crate::types::ServerProfile;

verus! {

impl Keyed for ServerProfile {
    open spec fn key_view(&self) -> Seq<char> {
        self.id@
    }

    fn key(&self) -> (r: &str) {
        self.id.as_str()
    }
}

/// The message when no profile has the id.
pub open spec fn spec_profile_not_found(id: Seq<char>) -> Seq<char> {
    "未找到 profile: "@ + id
}

/// The profile with the given id (the first one, should there be several).
pub fn get_profile(profiles: &Vec<ServerProfile>, id: &str) -> (r: Result<ServerProfile, String>)
    ensures
        match lookup(profiles@, id@) {
            Some(p) => r == Ok::<ServerProfile, String>(p),
            None => r matches Err(e) && e@ == spec_profile_not_found(id@),
        },
{
    match find_key(profiles, id) {
        Some(i) => {
            proof {
                lemma_index_of_key(profiles@, id@);
            }
            Ok(profiles[i].clone())
        },
        None => {
            let mut e = String::new();
            push_str(&mut e, "未找到 profile: ");
            push_str(&mut e, id);
            Err(e)
        },
    }
}

/// Saves a profile: replaces the one with the same id, or appends it.
pub fn save_profile(profiles: &mut Vec<ServerProfile>, profile: ServerProfile)
    ensures
        final(profiles)@ == upserted(old(profiles)@, profile),
{
    upsert(profiles, profile);
}

/// Deletes the profiles with the given id; tells whether the list changed
/// (and so has to be written back), which is exactly when some profile had
/// that id.
pub fn delete_profile(profiles: &mut Vec<ServerProfile>, id: &str) -> (changed: bool)
    ensures
        final(profiles)@ == without_key(old(profiles)@, id@),
        changed == (final(profiles)@.len() != old(profiles)@.len()),
        changed == has_key(old(profiles)@, id@),
{
    remove_key(profiles, id)
}

/// Merges imported profiles into the stored ones: an imported profile
/// replaces the stored one with its id, a new id is appended.
pub fn merge_profiles(profiles: &mut Vec<ServerProfile>, incoming: Vec<ServerProfile>)
    ensures
        final(profiles)@ == merged(old(profiles)@, incoming@),
{
    merge(profiles, incoming);
}

// ---------------------------------------------------------------------------
// Access keys
// ---------------------------------------------------------------------------

/// The lower-case hexadecimal digit of `d < 16`.
pub open spec fn hex_digit(d: nat) -> char {
    if d < 10 {
        (d + 48) as char
    } else {
        (d + 87) as char
    }
}

/// Bytes as lower-case hexadecimal, two digits per byte (`{:02x}`).
pub open spec fn hex_lower(bytes: Seq<u8>) -> Seq<char>
    decreases bytes.len(),
{
    if bytes.len() == 0 {
        Seq::empty()
    } else {
        hex_lower(bytes.drop_last()) + seq![
            hex_digit((bytes.last() / 16) as nat),
            hex_digit((bytes.last() % 16) as nat),
        ]
    }
}

/// Whether `c` is a lower-case hexadecimal digit.
pub open spec fn is_lower_hex(c: char) -> bool {
    ('0' <= c && c <= '9') || ('a' <= c && c <= 'f')
}

/// Hexadecimal text has two digits per byte, all lower-case hex digits.
pub proof fn lemma_hex_lower_shape(bytes: Seq<u8>)
    ensures
        hex_lower(bytes).len() == 2 * bytes.len(),
        forall|i: int| 0 <= i < hex_lower(bytes).len() ==> is_lower_hex(#[trigger] hex_lower(bytes)[i]),
    decreases bytes.len(),
{
    if bytes.len() > 0 {
        lemma_hex_lower_shape(bytes.drop_last());
        let a = hex_lower(bytes.drop_last());
        let h = hex_lower(bytes);
        assert forall|i: int| 0 <= i < h.len() implies is_lower_hex(#[trigger] h[i]) by {
            if i < a.len() {
                assert(h[i] == a[i]);
            }
        }
    }
}

fn hex_char(d: u8) -> (c: char)
    requires
        d < 16,
    ensures
        c == hex_digit(d as nat),
{
    if d < 10 {
        (d + 48) as char
    } else {
        (d + 87) as char
    }
}

/// Writes bytes as lower-case hexadecimal.
pub fn hex_of_bytes(bytes: &Vec<u8>) -> (r: String)
    ensures
        r@ == hex_lower(bytes@),
{
    let mut s = String::new();
    let mut i: usize = 0;
    while i < bytes.len()
        invariant
            i <= bytes.len(),
            s@ == hex_lower(bytes@.take(i as int)),
        decreases bytes.len() - i,
    {
        let b = bytes[i];
        push_char(&mut s, hex_char(b / 16));
        push_char(&mut s, hex_char(b % 16));
        assert(bytes@.take(i + 1).drop_last() =~= bytes@.take(i as int));
        i = i + 1;
        assert(s@ =~= hex_lower(bytes@.take(i as int)));
    }
    assert(bytes@.take(bytes.len() as int) =~= bytes@);
    s
}

/// One random byte from rand's thread-local generator
/// (`rand::rng().random_range(0u16..256)`). Nothing is stated of it.
#[verifier::external_body]
fn random_byte() -> (r: u8) {
    rand::rng().random_range(0u16..256) as u8
}

/// A new random access key: 16 random bytes as 32 lower-case hexadecimal
/// digits.
pub fn generate_access_key() -> (r: String)
    ensures
        exists|bytes: Seq<u8>| bytes.len() == 16 && r@ == #[trigger] hex_lower(bytes),
        r@.len() == 32,
        forall|i: int| 0 <= i < r@.len() ==> is_lower_hex(#[trigger] r@[i]),
{
    let mut bytes: Vec<u8> = Vec::new();
    let mut i: usize = 0;
    while i < 16
        invariant
            i <= 16,
            bytes@.len() == i,
        decreases 16 - i,
    {
        bytes.push(random_byte());
        i = i + 1;
    }
    let r = hex_of_bytes(&bytes);
    proof {
        lemma_hex_lower_shape(bytes@);
    }
    r
}

} // verus!
