//! Backup store and restore reconciler: capturing a point-in-time
//! snapshot of every package's state for every user, listing the users a
//! snapshot records, and diffing a snapshot against live device state to
//! produce a combined restore command plan.

use vstd::prelude::*;
use vstd::string::StringExecFns;
use chrono::{Datelike, Timelike};
use crate::state::{PackageState, CorePackage, User, Phone, DeviceSettings, Action, PhoneBackup, UserBackup, PkgView, UserBackupView, BackupView, pkg_views};
use crate::builder::{spec_build, cmd_views, apply_pkg_state_commands, user_ids, spec_dec, push_dec};
use crate::codec::{ser_backup, spec_parse_backup, lemma_parse_ser_backup};

verus! {

/// The views of the per-user package listings.
pub open spec fn listing_views(ls: Seq<Vec<CorePackage>>) -> Seq<Seq<PkgView>> {
    ls.map_values(|v: Vec<CorePackage>| pkg_views(v@))
}

/// The snapshot a full capture records: one entry per user, in user-list
/// order, holding the name and state of every package of that user's
/// listing, in listing order. Nothing is filtered by state, so a restore
/// can later move packages in any direction.
pub open spec fn spec_capture(users: Seq<User>, device_id: Seq<char>, listings: Seq<Seq<PkgView>>) -> BackupView {
    BackupView {
        device_id: device_id,
        users: users.map_values(
            |u: User| UserBackupView { id: u.id, packages: listings[u.index as int] },
        ),
    }
}

/// Copies the current name and state of every package of every given
/// user into a fresh snapshot.
pub fn capture_phone_backup(users: &Vec<User>, device_id: String, phone_packages: &Vec<Vec<CorePackage>>) -> (r: PhoneBackup)
    requires
        forall|i: int| 0 <= i < users@.len() ==> (#[trigger] users@[i]).index < phone_packages@.len(),
    ensures
        r@ == spec_capture(users@, device_id@, listing_views(phone_packages@)),
{
    let ghost listings = listing_views(phone_packages@);
    let mut out_users: Vec<UserBackup> = Vec::new();
    let mut i: usize = 0;
    while i < users.len()
        invariant
            i <= users@.len(),
            listings == listing_views(phone_packages@),
            forall|k: int| 0 <= k < users@.len() ==> (#[trigger] users@[k]).index < phone_packages@.len(),
            out_users@.map_values(|u: UserBackup| u@) == users@.subrange(0, i as int).map_values(
                |u: User| UserBackupView { id: u.id, packages: listings[u.index as int] },
            ),
        decreases users@.len() - i,
    {
        let u = users[i];
        let src: &Vec<CorePackage> = &phone_packages[u.index];
        let mut pkgs: Vec<CorePackage> = Vec::new();
        let mut j: usize = 0;
        while j < src.len()
            invariant
                j <= src@.len(),
                pkg_views(pkgs@) == pkg_views(src@).subrange(0, j as int),
            decreases src@.len() - j,
        {
            let ghost prev = pkgs@;
            let nm = src[j].name.clone();
            let ghost nmv = nm@;
            let st = src[j].state;
            pkgs.push(CorePackage { name: nm, state: st });
            proof {
                assert(nmv == src@[j as int].name@);
                assert(st == src@[j as int].state);
                assert(pkg_views(prev).len() == pkg_views(src@).subrange(0, j as int).len());
                assert(pkg_views(prev).len() == prev.len());
                assert(prev.len() == j);
                assert(pkgs@[j as int].name@ == nmv);
                assert(pkgs@[j as int].state == st);
                assert(pkgs@[j as int]@ =~= src@[j as int]@);
                assert(pkg_views(src@)[j as int] == src@[j as int]@);
                assert(pkg_views(pkgs@) =~= pkg_views(prev).push(src@[j as int]@));
                assert(pkg_views(src@).subrange(0, j as int + 1) =~= pkg_views(src@).subrange(
                    0,
                    j as int,
                ).push(pkg_views(src@)[j as int]));
            }
            j = j + 1;
        }
        proof {
            assert(pkg_views(src@).subrange(0, src@.len() as int) =~= pkg_views(src@));
            assert(listings[u.index as int] == pkg_views(src@));
        }
        let ghost prev_users = out_users@;
        out_users.push(UserBackup { id: u.id, packages: pkgs });
        proof {
            let f = |uu: UserBackup| uu@;
            let g = |uu: User| UserBackupView { id: uu.id, packages: listings[uu.index as int] };
            assert(out_users@.map_values(f) =~= prev_users.map_values(f).push(
                UserBackupView { id: u.id, packages: pkg_views(pkgs@) },
            ));
            assert(users@.subrange(0, i as int + 1).map_values(g) =~= users@.subrange(
                0,
                i as int,
            ).map_values(g).push(g(users@[i as int])));
        }
        i = i + 1;
    }
    let r = PhoneBackup { device_id, users: out_users };
    proof {
        assert(users@.subrange(0, users@.len() as int) =~= users@);
        let g = |uu: User| UserBackupView { id: uu.id, packages: listings[uu.index as int] };
        assert(r@.users =~= users@.map_values(g));
        assert(r@ == spec_capture(users@, device_id@, listings));
    }
    r
}

/// The users recorded in a snapshot, one entry per recorded user in
/// order. The listing index of each result is 0: a snapshot records no
/// listing positions, and the caller repopulates them.
pub fn backup_users(b: &PhoneBackup) -> (r: Vec<User>)
    ensures
        r@.len() == b@.users.len(),
        forall|i: int|
            0 <= i < r@.len() ==> (#[trigger] r@[i]).id == b@.users[i].id && r@[i].index == 0,
{
    let mut r: Vec<User> = Vec::new();
    let mut i: usize = 0;
    while i < b.users.len()
        invariant
            i <= b.users@.len(),
            r@.len() == i,
            forall|k: int|
                0 <= k < i ==> (#[trigger] r@[k]).id == b@.users[k].id && r@[k].index == 0,
        decreases b.users@.len() - i,
    {
        r.push(User { id: b.users[i].id, index: 0 });
        proof {
            assert(b@.users[i as int].id == b.users@[i as int]@.id);
        }
        i = i + 1;
    }
    r
}

/// The live state of `name` in a per-user listing: the state of its
/// first entry with that name, or `Enabled` when the listing has none —
/// a package absent from the live listing is taken as never modified.
pub open spec fn lookup_live_state(live: Seq<PkgView>, name: Seq<char>) -> PackageState
    decreases live.len(),
{
    if live.len() == 0 {
        PackageState::Enabled
    } else if live[0].name == name {
        live[0].state
    } else {
        lookup_live_state(live.drop_first(), name)
    }
}

fn lookup_state(live: &Vec<CorePackage>, name: &String) -> (r: PackageState)
    ensures
        r == lookup_live_state(pkg_views(live@), name@),
{
    let ghost full = pkg_views(live@);
    proof {
        assert(full.skip(0) =~= full);
    }
    let mut i: usize = 0;
    while i < live.len()
        invariant
            i <= live@.len(),
            full == pkg_views(live@),
            lookup_live_state(full, name@) == lookup_live_state(full.skip(i as int), name@),
        decreases live@.len() - i,
    {
        proof {
            assert(full.skip(i as int)[0] == full[i as int]);
            assert(full[i as int] == live@[i as int]@);
        }
        if live[i].name == *name {
            return live[i].state;
        }
        proof {
            assert(full.skip(i as int).drop_first() =~= full.skip(i as int + 1));
        }
        i = i + 1;
    }
    proof {
        assert(full.skip(live@.len() as int) =~= Seq::<PkgView>::empty());
    }
    PackageState::Enabled
}

/// The restore plan for the packages recorded for one user: for each
/// recorded package, in order, the commands that move it from its live
/// state to its recorded state, fanned out as a restore action.
pub open spec fn spec_plan_packages(
    pkgs: Seq<PkgView>,
    live: Seq<PkgView>,
    sdk: int,
    selected_id: u16,
    all_ids: Seq<u16>,
    multi_user_mode: bool,
) -> Seq<Seq<char>>
    decreases pkgs.len(),
{
    if pkgs.len() == 0 {
        Seq::empty()
    } else {
        spec_build(
            lookup_live_state(live, pkgs[0].name),
            pkgs[0].state,
            sdk,
            pkgs[0].name,
            selected_id,
            all_ids,
            multi_user_mode,
            Action::RestoreDevice,
        ) + spec_plan_packages(pkgs.drop_first(), live, sdk, selected_id, all_ids, multi_user_mode)
    }
}

/// The full restore plan: the per-package plans of every snapshot entry
/// recorded for the target user, concatenated in snapshot order.
pub open spec fn spec_restore_plan(
    users: Seq<UserBackupView>,
    target_id: u16,
    live: Seq<PkgView>,
    sdk: int,
    all_ids: Seq<u16>,
    multi_user_mode: bool,
) -> Seq<Seq<char>>
    decreases users.len(),
{
    if users.len() == 0 {
        Seq::empty()
    } else {
        (if users[0].id == target_id {
            spec_plan_packages(users[0].packages, live, sdk, target_id, all_ids, multi_user_mode)
        } else {
            Seq::empty()
        }) + spec_restore_plan(users.drop_first(), target_id, live, sdk, all_ids, multi_user_mode)
    }
}

/// Diffs the snapshot against the live listing of the target user and
/// builds the combined command plan that brings every recorded package
/// back to its recorded state, using the live state (or `Enabled` for a
/// package absent from the listing) as the starting point.
pub fn restore_plan(
    backup: &PhoneBackup,
    target_user: &User,
    live: &Vec<CorePackage>,
    phone: &Phone,
    settings: &DeviceSettings,
) -> (r: Vec<String>)
    ensures
        cmd_views(r@) == spec_restore_plan(
            backup@.users,
            target_user.id,
            pkg_views(live@),
            phone.android_sdk as int,
            user_ids(phone.user_list@),
            settings.multi_user_mode,
        ),
{
    let ghost uviews = backup@.users;
    let ghost livev = pkg_views(live@);
    let ghost sdk = phone.android_sdk as int;
    let ghost ids = user_ids(phone.user_list@);
    let ghost multi = settings.multi_user_mode;
    let ghost goal = spec_restore_plan(uviews, target_user.id, livev, sdk, ids, multi);
    let mut r: Vec<String> = Vec::new();
    proof {
        assert(uviews.skip(0) =~= uviews);
        assert(cmd_views(r@) =~= Seq::<Seq<char>>::empty());
        assert(Seq::<Seq<char>>::empty() + goal =~= goal);
    }
    let mut k: usize = 0;
    while k < backup.users.len()
        invariant
            k <= backup.users@.len(),
            uviews == backup@.users,
            livev == pkg_views(live@),
            sdk == phone.android_sdk as int,
            ids == user_ids(phone.user_list@),
            multi == settings.multi_user_mode,
            goal == spec_restore_plan(uviews, target_user.id, livev, sdk, ids, multi),
            goal == cmd_views(r@) + spec_restore_plan(
                uviews.skip(k as int),
                target_user.id,
                livev,
                sdk,
                ids,
                multi,
            ),
        decreases backup.users@.len() - k,
    {
        let ub: &UserBackup = &backup.users[k];
        proof {
            assert(uviews.skip(k as int)[0] == uviews[k as int]);
            assert(uviews[k as int] == backup.users@[k as int]@);
            assert(uviews.skip(k as int).drop_first() =~= uviews.skip(k as int + 1));
        }
        let ghost rest = spec_restore_plan(
            uviews.skip(k as int + 1),
            target_user.id,
            livev,
            sdk,
            ids,
            multi,
        );
        if ub.id == target_user.id {
            let ghost pkgsv = uviews[k as int].packages;
            let mut j: usize = 0;
            proof {
                assert(uviews[k as int].id == target_user.id);
                assert(spec_restore_plan(uviews.skip(k as int), target_user.id, livev, sdk, ids, multi)
                    == spec_plan_packages(pkgsv, livev, sdk, target_user.id, ids, multi) + rest);
                assert(pkgsv.skip(0) =~= pkgsv);
                assert(cmd_views(r@) + (spec_plan_packages(pkgsv, livev, sdk, target_user.id, ids, multi)
                    + rest) =~= cmd_views(r@) + spec_plan_packages(
                    pkgsv,
                    livev,
                    sdk,
                    target_user.id,
                    ids,
                    multi,
                ) + rest);
            }
            while j < ub.packages.len()
                invariant
                    j <= ub.packages@.len(),
                    pkgsv == pkg_views(ub.packages@),
                    livev == pkg_views(live@),
                    sdk == phone.android_sdk as int,
                    ids == user_ids(phone.user_list@),
                    multi == settings.multi_user_mode,
                    goal == cmd_views(r@) + spec_plan_packages(
                        pkgsv.skip(j as int),
                        livev,
                        sdk,
                        target_user.id,
                        ids,
                        multi,
                    ) + rest,
                decreases ub.packages@.len() - j,
            {
                let pkg: &CorePackage = &ub.packages[j];
                proof {
                    assert(pkgsv.skip(j as int)[0] == pkgsv[j as int]);
                    assert(pkgsv[j as int] == ub.packages@[j as int]@);
                    assert(pkgsv.skip(j as int).drop_first() =~= pkgsv.skip(j as int + 1));
                }
                let cur = lookup_state(live, &pkg.name);
                let mut cmds = apply_pkg_state_commands(
                    target_user,
                    pkg,
                    cur,
                    phone,
                    settings,
                    &Action::RestoreDevice,
                );
                let ghost cv = cmds@;
                let ghost prev = r@;
                r.append(&mut cmds);
                proof {
                    assert(cmd_views(r@) =~= cmd_views(prev) + cmd_views(cv));
                    assert(goal =~= cmd_views(r@) + spec_plan_packages(
                        pkgsv.skip(j as int + 1),
                        livev,
                        sdk,
                        target_user.id,
                        ids,
                        multi,
                    ) + rest);
                }
                j = j + 1;
            }
            proof {
                assert(pkgsv.skip(ub.packages@.len() as int) =~= Seq::<PkgView>::empty());
                assert(goal =~= cmd_views(r@) + spec_restore_plan(
                    uviews.skip(k as int + 1),
                    target_user.id,
                    livev,
                    sdk,
                    ids,
                    multi,
                ));
            }
        } else {
            proof {
                assert(goal =~= cmd_views(r@) + spec_restore_plan(
                    uviews.skip(k as int + 1),
                    target_user.id,
                    livev,
                    sdk,
                    ids,
                    multi,
                ));
            }
        }
        k = k + 1;
    }
    proof {
        assert(uviews.skip(backup.users@.len() as int) =~= Seq::<UserBackupView>::empty());
        assert(cmd_views(r@) + Seq::<Seq<char>>::empty() =~= cmd_views(r@));
    }
    r
}

/// Round trip: a captured snapshot, serialized to its canonical text
/// and parsed back, reproduces every recorded (user id, package name,
/// state) triple of the given listings.
pub proof fn lemma_capture_round_trip(users: Seq<User>, device_id: Seq<char>, listings: Seq<Seq<PkgView>>)
    requires
        forall|i: int| 0 <= i < users.len() ==> (#[trigger] users[i]).index < listings.len(),
        forall|i: int, j: int|
            0 <= i < listings.len() && 0 <= j < listings[i].len() ==> (#[trigger] listings[i][j]).wf(),
    ensures
        spec_parse_backup(ser_backup(spec_capture(users, device_id, listings))) == Some(
            spec_capture(users, device_id, listings),
        ),
{
    let b = spec_capture(users, device_id, listings);
    assert forall|i: int| 0 <= i < b.users.len() implies (#[trigger] b.users[i]).wf() by {
        assert(b.users[i] == UserBackupView {
            id: users[i].id,
            packages: listings[users[i].index as int],
        });
        assert forall|j: int|
            0 <= j < b.users[i].packages.len() implies (#[trigger] b.users[i].packages[j]).wf() by {
            assert(b.users[i].packages[j] == listings[users[i].index as int][j]);
        }
    }
    lemma_parse_ser_backup(b);
}

/// Left-pads a digit string with zeros to width `w`.
pub open spec fn zero_pad(s: Seq<char>, w: int) -> Seq<char> {
    if s.len() >= w {
        s
    } else {
        Seq::new((w - s.len()) as nat, |k: int| '0') + s
    }
}

/// The canonical snapshot filename for a local time, at minute
/// granularity: `YYYY-MM-DD-HH-MM.json`, each part zero-padded. Two
/// captures for one device within the same minute share a name, and the
/// later write wins; this is a known collision hazard of the scheme.
pub open spec fn spec_backup_filename(y: int, mo: int, d: int, h: int, mi: int) -> Seq<char> {
    (if y >= 0 {
        zero_pad(spec_dec(y as nat), 4)
    } else {
        "-"@ + zero_pad(spec_dec((-y) as nat), 4)
    }) + "-"@ + zero_pad(spec_dec(mo as nat), 2) + "-"@ + zero_pad(spec_dec(d as nat), 2) + "-"@
        + zero_pad(spec_dec(h as nat), 2) + "-"@ + zero_pad(spec_dec(mi as nat), 2) + ".json"@
}

proof fn lemma_dec_len(n: nat)
    ensures
        n < 10 ==> spec_dec(n).len() == 1,
        10 <= n < 100 ==> spec_dec(n).len() == 2,
        100 <= n < 1000 ==> spec_dec(n).len() == 3,
        1000 <= n < 10000 ==> spec_dec(n).len() == 4,
        n >= 10000 ==> spec_dec(n).len() >= 5,
    decreases n,
{
    if n >= 10 {
        lemma_dec_len(n / 10);
    }
}

fn push_pad2(out: &mut String, n: u32)
    ensures
        final(out)@ == old(out)@ + zero_pad(spec_dec(n as nat), 2),
{
    proof {
        lemma_dec_len(n as nat);
    }
    if n < 10 {
        out.append("0");
        proof {
            reveal_strlit("0");
        }
    }
    push_dec(out, n);
    proof {
        if n < 10 {
            assert("0"@ =~= Seq::new(1nat, |k: int| '0'));
            assert(out@ =~= old(out)@ + zero_pad(spec_dec(n as nat), 2));
        } else {
            assert(out@ =~= old(out)@ + zero_pad(spec_dec(n as nat), 2));
        }
    }
}

fn push_pad4(out: &mut String, n: u32)
    ensures
        final(out)@ == old(out)@ + zero_pad(spec_dec(n as nat), 4),
{
    proof {
        lemma_dec_len(n as nat);
    }
    if n < 10 {
        out.append("000");
        proof {
            reveal_strlit("000");
        }
    } else if n < 100 {
        out.append("00");
        proof {
            reveal_strlit("00");
        }
    } else if n < 1000 {
        out.append("0");
        proof {
            reveal_strlit("0");
        }
    }
    push_dec(out, n);
    proof {
        if n < 10 {
            assert("000"@ =~= Seq::new(3nat, |k: int| '0'));
        } else if n < 100 {
            assert("00"@ =~= Seq::new(2nat, |k: int| '0'));
        } else if n < 1000 {
            assert("0"@ =~= Seq::new(1nat, |k: int| '0'));
        }
        assert(out@ =~= old(out)@ + zero_pad(spec_dec(n as nat), 4));
    }
}

/// The snapshot filename for the given local-time parts.
pub fn backup_filename(year: i32, month: u32, day: u32, hour: u32, minute: u32) -> (r: String)
    ensures
        r@ == spec_backup_filename(
            year as int,
            month as int,
            day as int,
            hour as int,
            minute as int,
        ),
{
    let mut s = String::new();
    if year >= 0 {
        push_pad4(&mut s, year as u32);
    } else {
        s.append("-");
        let mag: u32 = (-(year as i64)) as u32;
        proof {
            reveal_strlit("-");
            assert(mag as nat == (-(year as int)) as nat);
        }
        push_pad4(&mut s, mag);
    }
    s.append("-");
    push_pad2(&mut s, month);
    s.append("-");
    push_pad2(&mut s, day);
    s.append("-");
    push_pad2(&mut s, hour);
    s.append("-");
    push_pad2(&mut s, minute);
    s.append(".json");
    proof {
        assert(s@ =~= spec_backup_filename(
            year as int,
            month as int,
            day as int,
            hour as int,
            minute as int,
        ));
    }
    s
}

/// Relies on `chrono::Local::now` and chrono's `Datelike` / `Timelike`
/// accessors: the year, month (1 to 12), day of month (1 to 31), hour
/// (0 to 23) and minute (0 to 59) of the current local time, with the
/// ranges chrono documents for these accessors.
#[verifier::external_body]
fn local_now_parts() -> (r: (i32, u32, u32, u32, u32))
    ensures
        1 <= r.1 <= 12,
        1 <= r.2 <= 31,
        r.3 < 24,
        r.4 < 60,
{
    let now = chrono::Local::now();
    (now.year(), now.month(), now.day(), now.hour(), now.minute())
}

/// The snapshot filename for the current local time, at minute
/// granularity. Whatever instant the clock returns, the result is the
/// canonical filename of some local time with in-range date parts.
pub fn backup_file_name_now() -> (r: String)
    ensures
        exists|y: int, mo: int, d: int, h: int, mi: int|
            1 <= mo <= 12 && 1 <= d <= 31 && 0 <= h < 24 && 0 <= mi < 60 && r@
                == spec_backup_filename(y, mo, d, h, mi),
{
    let parts = local_now_parts();
    let r = backup_filename(parts.0, parts.1, parts.2, parts.3, parts.4);
    proof {
        let y = parts.0 as int;
        let mo = parts.1 as int;
        let d = parts.2 as int;
        let h = parts.3 as int;
        let mi = parts.4 as int;
        assert(1 <= mo <= 12 && 1 <= d <= 31 && 0 <= h < 24 && 0 <= mi < 60 && r@
            == spec_backup_filename(y, mo, d, h, mi));
    }
    r
}

} // verus!
