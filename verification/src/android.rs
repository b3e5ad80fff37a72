//! State migration for Android applications, which speak in numbers and bytes.
use vstd::prelude::*;

use crate::clock::ticked;
use crate::migrate::{KeyRegistration, MigratableApp};
use crate::sdk::{countable, register_key_internal, Global};
use crate::transport::{policy_from_number, policy_of};

verus! {

/// What an Android application implements. Nothing is promised of what it gives back.
pub trait AndroidCallbacks: Send + Sync {
    fn export_state(&self) -> Vec<u8>;

    fn import_state(&self, data: &[u8]);

    fn merge(&self, key: &str, local: &[u8], remote: &[u8]) -> Vec<u8>;

    fn migrate_schema(&self, key: &str, from_version: u32, value: &[u8]) -> Vec<u8>;
}

/// A number of 32 bits, read as one without a sign.
pub open spec fn unsigned(n: i32) -> u32 {
    if n >= 0 {
        n as u32
    } else {
        (n + 0x1_0000_0000) as u32
    }
}

fn to_unsigned(n: i32) -> (r: u32)
    ensures
        r == unsigned(n),
{
    if n >= 0 {
        n as u32
    } else {
        (n as i64 + 0x1_0000_0000) as u32
    }
}

/// Registers how a key is handled, by the number of its policy. A number that stands for none is
/// passed over. Says whether it stands for one.
pub fn register_key<A: MigratableApp>(
    global: &mut Global<A>,
    key: &str,
    policy: i32,
    schema_version: i32,
) -> (r: bool)
    requires
        countable(*old(global)),
    ensures
        r == (policy_of(policy) is Some),
        match policy_of(policy) {
            None => *final(global) == *old(global),
            Some(p) => match (old(global).state, final(global).state) {
                (None, None) => true,
                (Some(a), Some(b)) => b.store@ == a.store@ && b.sdk.app == a.sdk.app
                    && b.sdk.device_id@ == a.sdk.device_id@ && b.sdk.registrations@
                    == a.sdk.registrations@.insert(
                    key@,
                    (KeyRegistration { policy: p, schema_version: unsigned(schema_version) })@,
                ) && b.sdk.vector_clock@ == ticked(a.sdk.vector_clock@, a.sdk.device_id@),
                _ => false,
            },
        },
{
    match policy_from_number(policy) {
        None => false,
        Some(p) => {
            let registration = KeyRegistration {
                policy: p,
                schema_version: to_unsigned(schema_version),
            };
            register_key_internal(global, key, registration);
            true
        },
    }
}

} // verus!
