//! Well-known file locations inside the installation's data directory.
//! The directory itself is found (and created) by the caller; these
//! functions only derive the individual file paths from it.

use vstd::prelude::*;

verus! {

/// The path of the application settings file inside the data directory.
pub fn get_config_path(data_dir: &str) -> (r: String)
    ensures
        r@ == data_dir@ + "/config.json"@,
{
    let mut r = String::from_str(data_dir);
    r.append("/config.json");
    r
}

/// The path of the subscription list file inside the data directory.
pub fn get_subscriptions_path(data_dir: &str) -> (r: String)
    ensures
        r@ == data_dir@ + "/subscriptions.json"@,
{
    let mut r = String::from_str(data_dir);
    r.append("/subscriptions.json");
    r
}

/// The path of the live synthesized configuration inside the data
/// directory.
pub fn get_current_config_path(data_dir: &str) -> (r: String)
    ensures
        r@ == data_dir@ + "/current.yaml"@,
{
    let mut r = String::from_str(data_dir);
    r.append("/current.yaml");
    r
}

} // verus!
