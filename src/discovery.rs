//! Where the configuration file is looked for.
use vstd::prelude::*;

verus! {

/// The places searched for the configuration file, in order.
pub open spec fn is_default_path(p: Seq<char>) -> bool {
    p == "config.yml"@ || p == "../config.yml"@ || p == "/etc/taskmasterd/config.yml"@
}

/// Relies on std::path::Path::exists: whether something is at `p` now.
/// What is on disk can change at any time, so nothing is stated.
#[verifier::external_body]
fn path_exists(p: &str) -> (r: bool) {
    std::path::Path::new(p).exists()
}

/// The first of `config.yml`, `../config.yml` and
/// `/etc/taskmasterd/config.yml` for which `found` holds, in that order.
pub fn pick_config(found: &[bool; 3]) -> (r: Option<String>)
    ensures
        r is None <==> (!found@[0] && !found@[1] && !found@[2]),
        found@[0] ==> (r matches Some(p) && p@ == "config.yml"@),
        !found@[0] && found@[1] ==> (r matches Some(p) && p@ == "../config.yml"@),
        !found@[0] && !found@[1] && found@[2] ==> (r matches Some(p) && p@
            == "/etc/taskmasterd/config.yml"@),
{
    if found[0] {
        Some("config.yml".to_owned())
    } else if found[1] {
        Some("../config.yml".to_owned())
    } else if found[2] {
        Some("/etc/taskmasterd/config.yml".to_owned())
    } else {
        None
    }
}

/// The first of `config.yml`, `../config.yml` and
/// `/etc/taskmasterd/config.yml` that exists. What exists is read from the
/// disk; the choice among what was found is `pick_config`.
pub fn find_config() -> (r: Option<String>)
    ensures
        r matches Some(p) ==> is_default_path(p@),
{
    let found = [
        path_exists("config.yml"),
        path_exists("../config.yml"),
        path_exists("/etc/taskmasterd/config.yml"),
    ];
    pick_config(&found)
}

} // verus!
