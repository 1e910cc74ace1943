//! Capability table: a pure lookup from a device API level to the
//! privileged package-management verbs that exist at that tier.

use vstd::prelude::*;
use crate::builder::verbs;
use crate::state::PackageState;

verus! {

/// Which privileged operations a device of a given API level offers.
#[derive(Clone, Copy, Debug, PartialEq, Eq, Structural)]
pub struct Capabilities {
    /// Commands can be addressed to a single user profile.
    pub supports_per_user_scope: bool,
    /// Full per-user disable: `disable-user`, with `force-stop` and
    /// `clear` as cleanup, and a working `enable`.
    pub supports_disable_user: bool,
    /// Reinstalling an uninstalled package with `install-existing`.
    pub supports_install_existing: bool,
    /// The legacy `hide` / `unhide` primitives.
    pub supports_per_user_hide: bool,
    /// The legacy `block` / `unblock` primitives.
    pub supports_block: bool,
    /// Clearing a package's data with `clear`.
    pub supports_clear: bool,
}

/// The capability tiers: full per-user disable and reinstall from API
/// 23 on; hide/unhide on 21 and 22; block/unblock on 19 and 20; below
/// 19 only a plain uninstall is available.
pub open spec fn spec_capabilities(sdk: int) -> Capabilities {
    Capabilities {
        supports_per_user_scope: sdk >= 21,
        supports_disable_user: sdk >= 23,
        supports_install_existing: sdk >= 23,
        supports_per_user_hide: 21 <= sdk < 23,
        supports_block: 19 <= sdk < 21,
        supports_clear: sdk >= 19,
    }
}

/// Looks up the capability tier of an API level.
pub fn capabilities(sdk: u8) -> (r: Capabilities)
    ensures
        r == spec_capabilities(sdk as int),
{
    Capabilities {
        supports_per_user_scope: sdk >= 21,
        supports_disable_user: sdk >= 23,
        supports_install_existing: sdk >= 23,
        supports_per_user_hide: 21 <= sdk && sdk < 23,
        supports_block: 19 <= sdk && sdk < 21,
        supports_clear: sdk >= 19,
    }
}

/// The builder never emits the `disable-user` primitive on a tier whose
/// capability table lacks it.
pub proof fn lemma_no_disable_user_without_capability(
    current: PackageState,
    desired: PackageState,
    sdk: int,
)
    requires
        !spec_capabilities(sdk).supports_disable_user,
    ensures
        forall|i: int|
            0 <= i < verbs(current, desired, sdk).len() ==> verbs(current, desired, sdk)[i]
                != "pm disable-user"@,
{
    reveal_strlit("pm disable-user");
    reveal_strlit("cmd package install-existing");
    reveal_strlit("pm unhide");
    reveal_strlit("pm unblock");
    reveal_strlit("pm clear");
    reveal_strlit("pm enable");
    reveal_strlit("pm hide");
    reveal_strlit("pm block");
    reveal_strlit("pm uninstall");
    assert("pm disable-user"@.len() == 15);
    assert("cmd package install-existing"@.len() == 28);
    assert("pm unhide"@.len() == 9);
    assert("pm unblock"@.len() == 10);
    assert("pm clear"@.len() == 8);
    assert("pm enable"@.len() == 9);
    assert("pm hide"@.len() == 7);
    assert("pm block"@.len() == 8);
    assert("pm uninstall"@.len() == 12);
}

} // verus!
