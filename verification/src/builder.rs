//! Transition command builder: maps (current state, desired state, API
//! level, package name, scope) to the ordered sequence of fully-formed
//! bridge commands that moves the package toward the desired state.

use vstd::prelude::*;
use vstd::string::StringExecFns;
use crate::state::{PackageState, CorePackage, User, Phone, DeviceSettings, Action};

verus! {

/// The decimal digit character for `n` in `0..10`.
pub open spec fn digit_char(n: int) -> char {
    ((48 + n) as u8) as char
}

/// The decimal digits of `n`, most significant first.
pub open spec fn spec_dec(n: nat) -> Seq<char>
    decreases n,
{
    if n < 10 {
        seq![digit_char(n as int)]
    } else {
        spec_dec(n / 10) + seq![digit_char((n % 10) as int)]
    }
}

/// The views of a sequence of owned strings.
pub open spec fn cmd_views(s: Seq<String>) -> Seq<Seq<char>> {
    s.map_values(|x: String| x@)
}

/// The per-tier verb families, keyed by the (current, desired) pair and
/// the device API level.
///
/// - A transition from a state to itself, or to or from the query
///   wildcard `All`, yields no verbs.
/// - From `Uninstalled`, every reachable target reinstalls:
///   `install-existing` on modern tiers, `unhide` / `unblock` on the
///   legacy hide and block tiers, and nothing below API 19, where the
///   transition is unreachable without elevated privileges.
/// - To `Enabled` from `Disabled`: a single `enable`, identical on all
///   tiers.
/// - To `Uninstalled` from `Enabled` or `Disabled`: the state-defining
///   disable primitive of the tier followed by best-effort cleanup, or a
///   plain `uninstall` below API 19.
/// - To `Disabled` from `Enabled`: the same family, stopped after the
///   state-defining command.
pub open spec fn verbs(current: PackageState, desired: PackageState, sdk: int) -> Seq<Seq<char>> {
    if current == desired {
        Seq::empty()
    } else if desired == PackageState::All || current == PackageState::All {
        Seq::empty()
    } else if current == PackageState::Uninstalled {
        if sdk >= 23 {
            seq!["cmd package install-existing"@]
        } else if sdk >= 21 {
            seq!["pm unhide"@]
        } else if sdk >= 19 {
            seq!["pm unblock"@, "pm clear"@]
        } else {
            Seq::empty()
        }
    } else if desired == PackageState::Enabled {
        seq!["pm enable"@]
    } else if desired == PackageState::Uninstalled {
        if sdk >= 23 {
            seq!["pm disable-user"@, "am force-stop"@, "pm clear"@]
        } else if sdk >= 21 {
            seq!["pm hide"@, "pm clear"@]
        } else if sdk >= 19 {
            seq!["pm block"@, "pm clear"@]
        } else {
            seq!["pm uninstall"@]
        }
    } else {
        if sdk >= 23 {
            seq!["pm disable-user"@]
        } else if sdk >= 21 {
            seq!["pm hide"@]
        } else if sdk >= 19 {
            seq!["pm block"@]
        } else {
            seq!["pm uninstall"@]
        }
    }
}

/// A command addressed to no particular user, as issued on tiers without
/// per-user primitives.
pub open spec fn unscoped_cmd(verb: Seq<char>, name: Seq<char>) -> Seq<char> {
    verb + " "@ + name
}

/// A command addressed to one user profile.
pub open spec fn scoped_cmd(verb: Seq<char>, uid: u16, name: Seq<char>) -> Seq<char> {
    verb + " --user "@ + spec_dec(uid as nat) + " "@ + name
}

/// Every verb of the family, unscoped.
pub open spec fn unscoped_cmds(vs: Seq<Seq<char>>, name: Seq<char>) -> Seq<Seq<char>> {
    vs.map_values(|v: Seq<char>| unscoped_cmd(v, name))
}

/// Every verb of the family, addressed to the one user `uid`.
pub open spec fn cmds_for_user(vs: Seq<Seq<char>>, uid: u16, name: Seq<char>) -> Seq<Seq<char>> {
    vs.map_values(|v: Seq<char>| scoped_cmd(v, uid, name))
}

/// The full command sequence repeated once per user id in `ids`, in
/// order: each user's complete per-user sequence stands together.
pub open spec fn fan_out(vs: Seq<Seq<char>>, ids: Seq<u16>, name: Seq<char>) -> Seq<Seq<char>>
    decreases ids.len(),
{
    if ids.len() == 0 {
        Seq::empty()
    } else {
        cmds_for_user(vs, ids[0], name) + fan_out(vs, ids.drop_first(), name)
    }
}

/// The ids of the known users, in listing order.
pub open spec fn user_ids(users: Seq<User>) -> Seq<u16> {
    users.map_values(|u: User| u.id)
}

/// The user ids a command sequence fans out across: a restore targets
/// every known user regardless of the multi-user setting; an interactive
/// action targets all known users only in multi-user mode, and otherwise
/// exactly the selected user.
pub open spec fn scope_ids(action: Action, multi_user_mode: bool, selected_id: u16, all_ids: Seq<u16>) -> Seq<u16> {
    match action {
        Action::RestoreDevice => all_ids,
        Action::Misc => if multi_user_mode {
            all_ids
        } else {
            seq![selected_id]
        },
    }
}

/// The complete command sequence for one package transition: the verb
/// family for (current, desired) at this API level, emitted once and
/// unscoped below API 21, and otherwise repeated per user id in scope.
pub open spec fn spec_build(
    current: PackageState,
    desired: PackageState,
    sdk: int,
    name: Seq<char>,
    selected_id: u16,
    all_ids: Seq<u16>,
    multi_user_mode: bool,
    action: Action,
) -> Seq<Seq<char>> {
    let vs = verbs(current, desired, sdk);
    if sdk < 21 {
        unscoped_cmds(vs, name)
    } else {
        fan_out(vs, scope_ids(action, multi_user_mode, selected_id, all_ids), name)
    }
}

/// `spec_build`, with its inputs drawn from the model types.
pub open spec fn spec_apply(
    selected: User,
    backup_pkg: CorePackage,
    current: PackageState,
    phone: Phone,
    settings: DeviceSettings,
    action: Action,
) -> Seq<Seq<char>> {
    spec_build(
        current,
        backup_pkg.state,
        phone.android_sdk as int,
        backup_pkg.name@,
        selected.id,
        user_ids(phone.user_list@),
        settings.multi_user_mode,
        action,
    )
}

/// Relies on `String::push`: appends exactly the one character `c` to the
/// end of the string.
#[verifier::external_body]
pub(crate) fn push_char(s: &mut String, c: char)
    ensures
        final(s)@ == old(s)@ + seq![c],
{
    s.push(c)
}

/// Appends the decimal digits of `n`, most significant first.
pub(crate) fn push_dec(out: &mut String, n: u32)
    ensures
        final(out)@ == old(out)@ + spec_dec(n as nat),
    decreases n,
{
    if n >= 10 {
        push_dec(out, n / 10);
    }
    let d: u8 = (n % 10) as u8 + 48;
    push_char(out, d as char);
    proof {
        assert(d as char == digit_char((n % 10) as int));
        assert(out@ =~= old(out)@ + spec_dec(n as nat));
    }
}

/// The decimal rendering of `n`, for callers outside the builder.
pub fn dec_string(n: u32) -> (r: String)
    ensures
        r@ == spec_dec(n as nat),
{
    let mut s = String::new();
    push_dec(&mut s, n);
    proof {
        assert(s@ =~= spec_dec(n as nat));
    }
    s
}

fn unscoped_command(verb: &str, name: &str) -> (r: String)
    ensures
        r@ == unscoped_cmd(verb@, name@),
{
    let mut s = String::new();
    s.append(verb);
    s.append(" ");
    s.append(name);
    proof {
        assert(s@ =~= unscoped_cmd(verb@, name@));
    }
    s
}

fn scoped_command(verb: &str, uid: u16, name: &str) -> (r: String)
    ensures
        r@ == scoped_cmd(verb@, uid, name@),
{
    let mut s = String::new();
    s.append(verb);
    s.append(" --user ");
    push_dec(&mut s, uid as u32);
    s.append(" ");
    s.append(name);
    proof {
        assert(s@ =~= scoped_cmd(verb@, uid, name@));
    }
    s
}

/// The verb family as owned strings.
fn verbs_vec(current: PackageState, desired: PackageState, sdk: u8) -> (r: Vec<String>)
    ensures
        cmd_views(r@) == verbs(current, desired, sdk as int),
{
    let mut r: Vec<String> = Vec::new();
    if current == desired {
    } else if matches!(desired, PackageState::All) || matches!(current, PackageState::All) {
    } else if matches!(current, PackageState::Uninstalled) {
        if sdk >= 23 {
            r.push("cmd package install-existing".to_owned());
        } else if sdk >= 21 {
            r.push("pm unhide".to_owned());
        } else if sdk >= 19 {
            r.push("pm unblock".to_owned());
            r.push("pm clear".to_owned());
        }
    } else if matches!(desired, PackageState::Enabled) {
        r.push("pm enable".to_owned());
    } else if matches!(desired, PackageState::Uninstalled) {
        if sdk >= 23 {
            r.push("pm disable-user".to_owned());
            r.push("am force-stop".to_owned());
            r.push("pm clear".to_owned());
        } else if sdk >= 21 {
            r.push("pm hide".to_owned());
            r.push("pm clear".to_owned());
        } else if sdk >= 19 {
            r.push("pm block".to_owned());
            r.push("pm clear".to_owned());
        } else {
            r.push("pm uninstall".to_owned());
        }
    } else {
        if sdk >= 23 {
            r.push("pm disable-user".to_owned());
        } else if sdk >= 21 {
            r.push("pm hide".to_owned());
        } else if sdk >= 19 {
            r.push("pm block".to_owned());
        } else {
            r.push("pm uninstall".to_owned());
        }
    }
    proof {
        assert(cmd_views(r@) =~~= verbs(current, desired, sdk as int));
    }
    r
}

/// The ids the command sequence will fan out across.
fn scope_ids_vec(action: &Action, multi_user_mode: bool, selected: &User, users: &Vec<User>) -> (r: Vec<u16>)
    ensures
        r@ == scope_ids(*action, multi_user_mode, selected.id, user_ids(users@)),
{
    let all = matches!(action, Action::RestoreDevice) || multi_user_mode;
    if all {
        let mut r: Vec<u16> = Vec::new();
        let mut i: usize = 0;
        while i < users.len()
            invariant
                i <= users@.len(),
                r@ == user_ids(users@.subrange(0, i as int)),
            decreases users@.len() - i,
        {
            r.push(users[i].id);
            proof {
                assert(user_ids(users@.subrange(0, i as int + 1)) =~= user_ids(
                    users@.subrange(0, i as int),
                ).push(users@[i as int].id));
            }
            i = i + 1;
        }
        proof {
            assert(users@.subrange(0, users@.len() as int) =~= users@);
        }
        r
    } else {
        let mut r: Vec<u16> = Vec::new();
        r.push(selected.id);
        proof {
            assert(r@ =~= seq![selected.id]);
        }
        r
    }
}

/// Appending one more user id to the fan-out appends that user's full
/// per-user sequence.
proof fn lemma_fan_out_push(vs: Seq<Seq<char>>, ids: Seq<u16>, x: u16, name: Seq<char>)
    ensures
        fan_out(vs, ids.push(x), name) == fan_out(vs, ids, name) + cmds_for_user(vs, x, name),
    decreases ids.len(),
{
    let p = ids.push(x);
    assert(p.len() == ids.len() + 1);
    assert(p[0] == if ids.len() == 0 { x } else { ids[0] });
    if ids.len() == 0 {
        assert(p.drop_first() =~= Seq::<u16>::empty());
        assert(fan_out(vs, p.drop_first(), name) == Seq::<Seq<char>>::empty());
        assert(fan_out(vs, ids, name) == Seq::<Seq<char>>::empty());
        assert(fan_out(vs, p, name) == cmds_for_user(vs, x, name) + fan_out(vs, p.drop_first(), name));
        assert(fan_out(vs, p, name) =~= fan_out(vs, ids, name) + cmds_for_user(vs, x, name));
    } else {
        assert(p.drop_first() =~= ids.drop_first().push(x));
        lemma_fan_out_push(vs, ids.drop_first(), x, name);
        assert(fan_out(vs, p, name) == cmds_for_user(vs, ids[0], name) + fan_out(vs, p.drop_first(), name));
        assert(fan_out(vs, ids, name) == cmds_for_user(vs, ids[0], name) + fan_out(vs, ids.drop_first(), name));
        assert(fan_out(vs, p, name) =~= fan_out(vs, ids, name) + cmds_for_user(vs, x, name));
    }
}

proof fn lemma_fan_out_empty_verbs(ids: Seq<u16>, name: Seq<char>)
    ensures
        fan_out(Seq::<Seq<char>>::empty(), ids, name) == Seq::<Seq<char>>::empty(),
    decreases ids.len(),
{
    if ids.len() > 0 {
        lemma_fan_out_empty_verbs(ids.drop_first(), name);
        assert(cmds_for_user(Seq::<Seq<char>>::empty(), ids[0], name) =~= Seq::<Seq<char>>::empty());
        assert(fan_out(Seq::<Seq<char>>::empty(), ids, name) =~= Seq::<Seq<char>>::empty());
    }
}

/// A transition from a state to itself yields no commands, for every API
/// level, package name and scope.
pub proof fn lemma_no_op_same_state(
    s: PackageState,
    sdk: int,
    name: Seq<char>,
    selected_id: u16,
    all_ids: Seq<u16>,
    multi_user_mode: bool,
    action: Action,
)
    ensures
        spec_build(s, s, sdk, name, selected_id, all_ids, multi_user_mode, action)
            == Seq::<Seq<char>>::empty(),
{
    if sdk < 21 {
        assert(unscoped_cmds(Seq::<Seq<char>>::empty(), name) =~= Seq::<Seq<char>>::empty());
    } else {
        lemma_fan_out_empty_verbs(scope_ids(action, multi_user_mode, selected_id, all_ids), name);
    }
}

/// Asking to move a package to the query wildcard `All` is invalid input
/// and yields no commands, whatever the other inputs are.
pub proof fn lemma_no_op_wildcard_target(
    current: PackageState,
    sdk: int,
    name: Seq<char>,
    selected_id: u16,
    all_ids: Seq<u16>,
    multi_user_mode: bool,
    action: Action,
)
    ensures
        spec_build(current, PackageState::All, sdk, name, selected_id, all_ids, multi_user_mode, action)
            == Seq::<Seq<char>>::empty(),
{
    if sdk < 21 {
        assert(unscoped_cmds(Seq::<Seq<char>>::empty(), name) =~= Seq::<Seq<char>>::empty());
    } else {
        lemma_fan_out_empty_verbs(scope_ids(action, multi_user_mode, selected_id, all_ids), name);
    }
}

/// On API 23 and later, uninstalling an enabled package starts with the
/// state-defining `disable-user` command, followed by the `force-stop`
/// and `clear` cleanup, in that order.
pub proof fn lemma_modern_uninstall_order(sdk: int)
    requires
        sdk >= 23,
    ensures
        verbs(PackageState::Enabled, PackageState::Uninstalled, sdk)
            == seq!["pm disable-user"@, "am force-stop"@, "pm clear"@],
{
}

/// On the block tier (API 19 and 20) the same transition is exactly
/// `block` then `clear`, and no `disable-user` command appears.
pub proof fn lemma_block_tier_uninstall(sdk: int)
    requires
        19 <= sdk <= 20,
    ensures
        verbs(PackageState::Enabled, PackageState::Uninstalled, sdk)
            == seq!["pm block"@, "pm clear"@],
        forall|i: int|
            0 <= i < verbs(PackageState::Enabled, PackageState::Uninstalled, sdk).len()
                ==> verbs(PackageState::Enabled, PackageState::Uninstalled, sdk)[i]
                != "pm disable-user"@,
{
    reveal_strlit("pm block");
    reveal_strlit("pm clear");
    reveal_strlit("pm disable-user");
    assert("pm block"@.len() == 8);
    assert("pm clear"@.len() == 8);
    assert("pm disable-user"@.len() == 15);
}

/// Below API 19 every transition degrades to at most one command.
pub proof fn lemma_legacy_at_most_one_command(
    current: PackageState,
    desired: PackageState,
    sdk: int,
    name: Seq<char>,
    selected_id: u16,
    all_ids: Seq<u16>,
    multi_user_mode: bool,
    action: Action,
)
    requires
        sdk < 19,
    ensures
        spec_build(current, desired, sdk, name, selected_id, all_ids, multi_user_mode, action).len()
            <= 1,
{
}

/// Below API 21 the command set is emitted once, unscoped: the result
/// does not depend on the selected user, the known user list, the
/// multi-user setting or the kind of action.
pub proof fn lemma_legacy_scope_ignored(
    current: PackageState,
    desired: PackageState,
    sdk: int,
    name: Seq<char>,
    sel1: u16,
    ids1: Seq<u16>,
    m1: bool,
    a1: Action,
    sel2: u16,
    ids2: Seq<u16>,
    m2: bool,
    a2: Action,
)
    requires
        sdk < 21,
    ensures
        spec_build(current, desired, sdk, name, sel1, ids1, m1, a1)
            == spec_build(current, desired, sdk, name, sel2, ids2, m2, a2),
{
}

/// An interactive action with multi-user mode off fans out across exactly
/// the one selected user id.
pub proof fn lemma_interactive_single_user_scope(selected_id: u16, all_ids: Seq<u16>)
    ensures
        scope_ids(Action::Misc, false, selected_id, all_ids) == seq![selected_id],
{
}

/// A restore fans out across every known user id, whatever the
/// multi-user setting says.
pub proof fn lemma_restore_full_scope(multi_user_mode: bool, selected_id: u16, all_ids: Seq<u16>)
    ensures
        scope_ids(Action::RestoreDevice, multi_user_mode, selected_id, all_ids) == all_ids,
{
}

/// Builds the ordered command sequence that moves `backup_pkg.name` from
/// `phone_pkg_state` to `backup_pkg.state` on `phone`, fanned out across
/// the scope that `action` and the settings select.
pub fn apply_pkg_state_commands(
    selected_user: &User,
    backup_pkg: &CorePackage,
    phone_pkg_state: PackageState,
    phone: &Phone,
    settings: &DeviceSettings,
    action: &Action,
) -> (r: Vec<String>)
    ensures
        cmd_views(r@) == spec_apply(*selected_user, *backup_pkg, phone_pkg_state, *phone, *settings, *action),
{
    let vs = verbs_vec(phone_pkg_state, backup_pkg.state, phone.android_sdk);
    let ghost vsv = verbs(phone_pkg_state, backup_pkg.state, phone.android_sdk as int);
    let name: &str = backup_pkg.name.as_str();
    let mut r: Vec<String> = Vec::new();
    if phone.android_sdk < 21 {
        let mut i: usize = 0;
        while i < vs.len()
            invariant
                i <= vs@.len(),
                cmd_views(vs@) == vsv,
                name@ == backup_pkg.name@,
                cmd_views(r@) == unscoped_cmds(vsv.subrange(0, i as int), name@),
            decreases vs@.len() - i,
        {
            r.push(unscoped_command(vs[i].as_str(), name));
            proof {
                assert(unscoped_cmds(vsv.subrange(0, i as int + 1), name@) =~= unscoped_cmds(
                    vsv.subrange(0, i as int),
                    name@,
                ).push(unscoped_cmd(vsv[i as int], name@)));
                assert(cmd_views(r@) =~= unscoped_cmds(vsv.subrange(0, i as int + 1), name@));
            }
            i = i + 1;
        }
        proof {
            assert(vsv.subrange(0, vsv.len() as int) =~= vsv);
        }
        r
    } else {
        let ids = scope_ids_vec(action, settings.multi_user_mode, selected_user, &phone.user_list);
        let mut k: usize = 0;
        while k < ids.len()
            invariant
                k <= ids@.len(),
                cmd_views(vs@) == vsv,
                name@ == backup_pkg.name@,
                cmd_views(r@) == fan_out(vsv, ids@.subrange(0, k as int), name@),
            decreases ids@.len() - k,
        {
            let uid = ids[k];
            let mut i: usize = 0;
            while i < vs.len()
                invariant
                    i <= vs@.len(),
                    cmd_views(vs@) == vsv,
                    name@ == backup_pkg.name@,
                    uid == ids@[k as int],
                    k < ids@.len(),
                    cmd_views(r@) == fan_out(vsv, ids@.subrange(0, k as int), name@)
                        + cmds_for_user(vsv, uid, name@).subrange(0, i as int),
                decreases vs@.len() - i,
            {
                proof {
                    assert(vsv[i as int] == vs@[i as int]@);
                }
                let cmdstr = scoped_command(vs[i].as_str(), uid, name);
                let ghost c = cmdstr@;
                let ghost prev = r@;
                r.push(cmdstr);
                proof {
                    assert(c == scoped_cmd(vsv[i as int], uid, name@));
                    assert(cmd_views(r@) =~= cmd_views(prev).push(c));
                    assert(cmds_for_user(vsv, uid, name@)[i as int] == scoped_cmd(vsv[i as int], uid, name@));
                    assert(cmds_for_user(vsv, uid, name@).subrange(0, i as int + 1)
                        =~= cmds_for_user(vsv, uid, name@).subrange(0, i as int).push(
                        scoped_cmd(vsv[i as int], uid, name@),
                    ));
                    assert(cmd_views(r@) =~= fan_out(vsv, ids@.subrange(0, k as int), name@)
                        + cmds_for_user(vsv, uid, name@).subrange(0, i as int + 1));
                }
                i = i + 1;
            }
            proof {
                assert(cmds_for_user(vsv, uid, name@).subrange(
                    0,
                    cmds_for_user(vsv, uid, name@).len() as int,
                ) =~= cmds_for_user(vsv, uid, name@));
                lemma_fan_out_push(vsv, ids@.subrange(0, k as int), uid, name@);
                assert(ids@.subrange(0, k as int + 1) =~= ids@.subrange(0, k as int).push(
                    ids@[k as int],
                ));
            }
            k = k + 1;
        }
        proof {
            assert(ids@.subrange(0, ids@.len() as int) =~= ids@);
        }
        r
    }
}

} // verus!
