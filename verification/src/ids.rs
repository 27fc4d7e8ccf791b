//! Identifiers the flows mint: the terminal profile id allocated once per
//! environment, and the collision-free name an export archive is written
//! under.

use vstd::prelude::*;
use rand::Rng;
use crate::store::{join_path, join_path_spec};

verus! {

/// An ASCII letter or digit.
pub open spec fn is_ascii_alnum(c: char) -> bool {
    ('0' <= c && c <= '9') || ('a' <= c && c <= 'z') || ('A' <= c && c <= 'Z')
}

/// Relies on rand's thread-local generator with the `Alphanumeric`
/// distribution: every sampled value is an ASCII letter or digit.
#[verifier::external_body]
pub(crate) fn generate_rand_filename() -> (r: String)
    ensures
        r@.len() == 30,
        forall|i: int| 0 <= i < r@.len() ==> is_ascii_alnum(#[trigger] r@[i]),
{
    rand::thread_rng().sample_iter(&rand::distributions::Alphanumeric).take(30).map(
        char::from,
    ).collect()
}

/// Relies on uuid's v4 generator and its hyphenated form: 36 characters,
/// each an ASCII hex digit or a hyphen.
#[verifier::external_body]
pub(crate) fn new_profile_id() -> (r: String)
    ensures
        r@.len() == 36,
{
    uuid::Uuid::new_v4().to_hyphenated().to_string()
}

/// The path an exported image archive is written to: a fresh random
/// 30-character name under the given temporary directory, so that
/// concurrent exports cannot collide without any coordination.
pub fn export_tar_path(temp_dir_path: &str) -> (r: String)
    ensures
        exists|n: Seq<char>|
            n.len() == 30 && (forall|i: int| 0 <= i < n.len() ==> is_ascii_alnum(#[trigger] n[i]))
                && r@ == join_path_spec(temp_dir_path@, n),
{
    let name = generate_rand_filename();
    let r = join_path(temp_dir_path, name.as_str());
    proof {
        assert(name@.len() == 30 && (forall|i: int|
            0 <= i < name@.len() ==> is_ascii_alnum(#[trigger] name@[i])) && r@ == join_path_spec(
            temp_dir_path@,
            name@,
        ));
    }
    r
}

} // verus!
