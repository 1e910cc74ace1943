//! Canonical text codec for snapshots. A snapshot is persisted as one
//! JSON object:
//! `{"device_id":<string>,"users":[{"id":<number>,"packages":[{"name":<string>,"state":<state>},...]},...]}`
//! with strings escaped as JSON asks (quote, backslash, and control
//! characters), numbers in plain decimal, and no whitespace between
//! tokens. The parser accepts exactly this canonical form and yields a
//! recoverable error for anything else; reading back what was written
//! reproduces the snapshot.

use vstd::prelude::*;
use vstd::string::StringExecFns;
use vstd::string::StrSliceExecFns;
use crate::state::{PackageState, CorePackage, PhoneBackup, UserBackup, PkgView, UserBackupView, BackupView, pkg_views};
use crate::builder::{spec_dec, digit_char, push_char, push_dec};

verus! {

/// The hexadecimal digit character for `n` in `0..16`, lower case.
pub open spec fn hex_digit(n: int) -> char {
    if n < 10 {
        ((48 + n) as u8) as char
    } else {
        ((87 + n) as u8) as char
    }
}

/// How one character is written inside a quoted string: quote and
/// backslash get a backslash escape, control characters a `\u00` escape,
/// and every other character stands for itself.
pub open spec fn esc_char(c: char) -> Seq<char> {
    if c == '"' {
        seq!['\\', '"']
    } else if c == '\\' {
        seq!['\\', '\\']
    } else if (c as int) < 32 {
        seq!['\\', 'u', '0', '0', hex_digit((c as int) / 16), hex_digit((c as int) % 16)]
    } else {
        seq![c]
    }
}

/// The escaped body of a quoted string.
pub open spec fn esc(s: Seq<char>) -> Seq<char>
    decreases s.len(),
{
    if s.len() == 0 {
        Seq::empty()
    } else {
        esc_char(s[0]) + esc(s.drop_first())
    }
}

/// A complete quoted string.
pub open spec fn ser_string(s: Seq<char>) -> Seq<char> {
    seq!['"'] + esc(s) + seq!['"']
}

/// The canonical name of a package state.
pub open spec fn state_name(st: PackageState) -> Seq<char> {
    match st {
        PackageState::Enabled => "Enabled"@,
        PackageState::Disabled => "Disabled"@,
        PackageState::Uninstalled => "Uninstalled"@,
        PackageState::All => "All"@,
    }
}

/// One recorded package.
pub open spec fn ser_package(p: PkgView) -> Seq<char> {
    "{\"name\":"@ + ser_string(p.name) + ",\"state\":\""@ + state_name(p.state) + "\"}"@
}

/// A comma-separated package list.
pub open spec fn ser_package_list(ps: Seq<PkgView>) -> Seq<char>
    decreases ps.len(),
{
    if ps.len() == 0 {
        Seq::empty()
    } else if ps.len() == 1 {
        ser_package(ps[0])
    } else {
        ser_package(ps[0]) + ","@ + ser_package_list(ps.drop_first())
    }
}

/// One recorded user with their packages.
pub open spec fn ser_user(u: UserBackupView) -> Seq<char> {
    "{\"id\":"@ + spec_dec(u.id as nat) + ",\"packages\":["@ + ser_package_list(u.packages) + "]}"@
}

/// A comma-separated user list.
pub open spec fn ser_user_list(us: Seq<UserBackupView>) -> Seq<char>
    decreases us.len(),
{
    if us.len() == 0 {
        Seq::empty()
    } else if us.len() == 1 {
        ser_user(us[0])
    } else {
        ser_user(us[0]) + ","@ + ser_user_list(us.drop_first())
    }
}

/// The whole snapshot.
pub open spec fn ser_backup(b: BackupView) -> Seq<char> {
    "{\"device_id\":"@ + ser_string(b.device_id) + ",\"users\":["@ + ser_user_list(b.users) + "]}"@
}

/// Escaping one more character appends its escape to the escaped text.
proof fn lemma_esc_snoc(s: Seq<char>, c: char)
    ensures
        esc(s.push(c)) == esc(s) + esc_char(c),
    decreases s.len(),
{
    let p = s.push(c);
    if s.len() == 0 {
        assert(p.drop_first() =~= Seq::<char>::empty());
        assert(p[0] == c);
        assert(esc(Seq::<char>::empty()) == Seq::<char>::empty());
        assert(esc(p) == esc_char(c) + esc(p.drop_first()));
        assert(esc(p) =~= esc(s) + esc_char(c));
    } else {
        assert(p.drop_first() =~= s.drop_first().push(c));
        lemma_esc_snoc(s.drop_first(), c);
        assert(esc(p) == esc_char(s[0]) + esc(p.drop_first()));
        assert(esc(p) =~= esc(s) + esc_char(c));
    }
}

/// Appends the escaped body of `s`.
fn append_escaped(out: &mut String, s: &str)
    ensures
        final(out)@ == old(out)@ + esc(s@),
{
    let n = s.unicode_len();
    let mut i: usize = 0;
    proof {
        assert(s@.subrange(0, 0) =~= Seq::<char>::empty());
        assert(out@ =~= old(out)@ + esc(s@.subrange(0, 0)));
    }
    while i < n
        invariant
            i <= n,
            n == s@.len(),
            out@ == old(out)@ + esc(s@.subrange(0, i as int)),
        decreases n - i,
    {
        let c = s.get_char(i);
        if c == '"' {
            out.append("\\\"");
            proof {
                reveal_strlit("\\\"");
                assert("\\\""@ =~= esc_char(c));
            }
        } else if c == '\\' {
            out.append("\\\\");
            proof {
                reveal_strlit("\\\\");
                assert("\\\\"@ =~= esc_char(c));
            }
        } else if (c as u32) < 32 {
            out.append("\\u00");
            let code: u32 = c as u32;
            let hi: u32 = code / 16;
            let lo: u32 = code % 16;
            let hc: u8 = if hi < 10 {
                hi as u8 + 48
            } else {
                hi as u8 + 87
            };
            let lc: u8 = if lo < 10 {
                lo as u8 + 48
            } else {
                lo as u8 + 87
            };
            push_char(out, hc as char);
            push_char(out, lc as char);
            proof {
                reveal_strlit("\\u00");
                assert(hc as char == hex_digit((c as int) / 16));
                assert(lc as char == hex_digit((c as int) % 16));
                assert("\\u00"@ + seq![hc as char] + seq![lc as char] =~= esc_char(c));
            }
        } else {
            push_char(out, c);
            proof {
                assert(seq![c] =~= esc_char(c));
            }
        }
        proof {
            lemma_esc_snoc(s@.subrange(0, i as int), c);
            assert(s@.subrange(0, i as int + 1) =~= s@.subrange(0, i as int).push(c));
            assert(out@ =~= old(out)@ + esc(s@.subrange(0, i as int + 1)));
        }
        i = i + 1;
    }
    proof {
        assert(s@.subrange(0, s@.len() as int) =~= s@);
    }
}

/// Appends `s` as a complete quoted string.
fn append_quoted(out: &mut String, s: &str)
    ensures
        final(out)@ == old(out)@ + ser_string(s@),
{
    push_char(out, '"');
    append_escaped(out, s);
    push_char(out, '"');
    proof {
        assert(out@ =~= old(out)@ + ser_string(s@));
    }
}

/// The canonical name of a state, as a string slice.
fn state_name_str(st: PackageState) -> (r: &'static str)
    ensures
        r@ == state_name(st),
{
    match st {
        PackageState::Enabled => "Enabled",
        PackageState::Disabled => "Disabled",
        PackageState::Uninstalled => "Uninstalled",
        PackageState::All => "All",
    }
}

/// Appends one recorded package.
fn append_package(out: &mut String, p: &CorePackage)
    ensures
        final(out)@ == old(out)@ + ser_package(p@),
{
    out.append("{\"name\":");
    append_quoted(out, p.name.as_str());
    out.append(",\"state\":\"");
    out.append(state_name_str(p.state));
    out.append("\"}");
    proof {
        assert(out@ =~= old(out)@ + ser_package(p@));
    }
}

/// Serializing one more package appends a separator (between elements)
/// and that package's text.
proof fn lemma_ser_package_list_snoc(ps: Seq<PkgView>, p: PkgView)
    ensures
        ser_package_list(ps.push(p)) == ser_package_list(ps) + (if ps.len() == 0 {
            Seq::<char>::empty()
        } else {
            ","@
        }) + ser_package(p),
    decreases ps.len(),
{
    let q = ps.push(p);
    if ps.len() == 0 {
        assert(ser_package_list(q) =~= ser_package_list(ps) + Seq::<char>::empty() + ser_package(p));
    } else {
        assert(q.drop_first() =~= ps.drop_first().push(p));
        lemma_ser_package_list_snoc(ps.drop_first(), p);
        if ps.len() == 1 {
            assert(q.len() == 2);
            assert(q[0] == ps[0]);
            assert(ser_package_list(q) == ser_package(q[0]) + ","@ + ser_package_list(q.drop_first()));
            assert(ser_package_list(q.drop_first()) == ser_package(p));
            assert(ser_package_list(q) =~= ser_package_list(ps) + ","@ + ser_package(p));
        } else {
            assert(ser_package_list(q) == ser_package(q[0]) + ","@ + ser_package_list(q.drop_first()));
            assert(ser_package_list(ps) == ser_package(ps[0]) + ","@ + ser_package_list(ps.drop_first()));
            assert(ser_package_list(q) =~= ser_package_list(ps) + ","@ + ser_package(p));
        }
    }
}

/// Serializing one more user appends a separator (between elements) and
/// that user's text.
proof fn lemma_ser_user_list_snoc(us: Seq<UserBackupView>, u: UserBackupView)
    ensures
        ser_user_list(us.push(u)) == ser_user_list(us) + (if us.len() == 0 {
            Seq::<char>::empty()
        } else {
            ","@
        }) + ser_user(u),
    decreases us.len(),
{
    let q = us.push(u);
    if us.len() == 0 {
        assert(ser_user_list(q) =~= ser_user_list(us) + Seq::<char>::empty() + ser_user(u));
    } else {
        assert(q.drop_first() =~= us.drop_first().push(u));
        lemma_ser_user_list_snoc(us.drop_first(), u);
        if us.len() == 1 {
            assert(q[0] == us[0]);
            assert(ser_user_list(q) == ser_user(q[0]) + ","@ + ser_user_list(q.drop_first()));
            assert(ser_user_list(q.drop_first()) == ser_user(u));
            assert(ser_user_list(q) =~= ser_user_list(us) + ","@ + ser_user(u));
        } else {
            assert(ser_user_list(q) == ser_user(q[0]) + ","@ + ser_user_list(q.drop_first()));
            assert(ser_user_list(us) == ser_user(us[0]) + ","@ + ser_user_list(us.drop_first()));
            assert(ser_user_list(q) =~= ser_user_list(us) + ","@ + ser_user(u));
        }
    }
}

/// Appends one recorded user.
fn append_user(out: &mut String, u: &UserBackup)
    ensures
        final(out)@ == old(out)@ + ser_user(u@),
{
    out.append("{\"id\":");
    push_dec(out, u.id as u32);
    out.append(",\"packages\":[");
    let ghost mid = out@;
    let ghost pkgsv = u@.packages;
    let mut j: usize = 0;
    proof {
        assert(pkgsv.subrange(0, 0) =~= Seq::<PkgView>::empty());
        assert(out@ =~= mid + ser_package_list(pkgsv.subrange(0, 0)));
    }
    while j < u.packages.len()
        invariant
            j <= u.packages@.len(),
            pkgsv == u@.packages,
            out@ == mid + ser_package_list(pkgsv.subrange(0, j as int)),
        decreases u.packages@.len() - j,
    {
        if j > 0 {
            out.append(",");
        }
        append_package(out, &u.packages[j]);
        proof {
            assert(pkgsv[j as int] == u.packages@[j as int]@);
            lemma_ser_package_list_snoc(pkgsv.subrange(0, j as int), pkgsv[j as int]);
            assert(pkgsv.subrange(0, j as int + 1) =~= pkgsv.subrange(0, j as int).push(
                pkgsv[j as int],
            ));
            if j > 0 {
                reveal_strlit(",");
                assert(out@ =~= mid + ser_package_list(pkgsv.subrange(0, j as int + 1)));
            } else {
                assert(out@ =~= mid + ser_package_list(pkgsv.subrange(0, j as int + 1)));
            }
        }
        j = j + 1;
    }
    out.append("]}");
    proof {
        assert(pkgsv.subrange(0, pkgsv.len() as int) =~= pkgsv);
        assert((u.id as u32) as nat == u.id as nat);
        assert(out@ =~= old(out)@ + ser_user(u@));
    }
}

/// Whether `lit` is a prefix of `s`.
pub open spec fn has_prefix(s: Seq<char>, lit: Seq<char>) -> bool {
    lit.len() <= s.len() && forall|k: int| 0 <= k < lit.len() ==> s[k] == lit[k]
}

/// Strips a known literal from the front of the text.
pub open spec fn strip_lit(s: Seq<char>, lit: Seq<char>) -> Option<Seq<char>> {
    if has_prefix(s, lit) {
        Some(s.skip(lit.len() as int))
    } else {
        None
    }
}

/// A decimal digit.
pub open spec fn is_dec_digit(c: char) -> bool {
    48 <= c as int <= 57
}

/// The value of a decimal digit.
pub open spec fn dec_val(c: char) -> int {
    c as int - 48
}

/// A lower-case hexadecimal digit.
pub open spec fn is_hex_lower(c: char) -> bool {
    is_dec_digit(c) || 97 <= c as int <= 102
}

/// The value of a lower-case hexadecimal digit.
pub open spec fn hex_val(c: char) -> int {
    if is_dec_digit(c) {
        c as int - 48
    } else {
        c as int - 87
    }
}

/// Parses the body of a quoted string up to and including the closing
/// quote, undoing exactly the escapes the writer makes: returns the
/// unescaped text and what follows the closing quote.
pub open spec fn parse_str_body(s: Seq<char>) -> Option<(Seq<char>, Seq<char>)>
    decreases s.len(),
{
    if s.len() == 0 {
        None
    } else if s[0] == '"' {
        Some((Seq::empty(), s.drop_first()))
    } else if s[0] == '\\' {
        if s.len() >= 2 && (s[1] == '"' || s[1] == '\\') {
            match parse_str_body(s.skip(2)) {
                Some(tr) => Some((seq![s[1]] + tr.0, tr.1)),
                None => None,
            }
        } else if s.len() >= 6 && s[1] == 'u' && s[2] == '0' && s[3] == '0' && is_hex_lower(s[4])
            && is_hex_lower(s[5]) && hex_val(s[4]) * 16 + hex_val(s[5]) < 32 {
            match parse_str_body(s.skip(6)) {
                Some(tr) => Some(
                    (seq![((hex_val(s[4]) * 16 + hex_val(s[5])) as u8) as char] + tr.0, tr.1),
                ),
                None => None,
            }
        } else {
            None
        }
    } else if (s[0] as int) < 32 {
        None
    } else {
        match parse_str_body(s.drop_first()) {
            Some(tr) => Some((seq![s[0]] + tr.0, tr.1)),
            None => None,
        }
    }
}

/// A complete quoted string.
pub open spec fn parse_string(s: Seq<char>) -> Option<(Seq<char>, Seq<char>)> {
    if s.len() > 0 && s[0] == '"' {
        parse_str_body(s.drop_first())
    } else {
        None
    }
}

/// The leading run of decimal digits, and what follows it.
pub open spec fn take_digits(s: Seq<char>) -> (Seq<char>, Seq<char>)
    decreases s.len(),
{
    if s.len() > 0 && is_dec_digit(s[0]) {
        let tr = take_digits(s.drop_first());
        (seq![s[0]] + tr.0, tr.1)
    } else {
        (Seq::empty(), s)
    }
}

/// The value of a digit string, most significant digit first.
pub open spec fn digits_val(d: Seq<char>) -> int
    decreases d.len(),
{
    if d.len() == 0 {
        0
    } else {
        digits_val(d.drop_last()) * 10 + dec_val(d.last())
    }
}

/// A decimal number that fits a user id.
pub open spec fn parse_u16(s: Seq<char>) -> Option<(u16, Seq<char>)> {
    let tr = take_digits(s);
    if tr.0.len() > 0 && digits_val(tr.0) <= 65535 {
        Some((digits_val(tr.0) as u16, tr.1))
    } else {
        None
    }
}

/// A state name followed by the closing `"}` of a package object.
pub open spec fn parse_state_close(s: Seq<char>) -> Option<(PackageState, Seq<char>)> {
    if strip_lit(s, "Enabled\"}"@) is Some {
        Some((PackageState::Enabled, strip_lit(s, "Enabled\"}"@)->Some_0))
    } else if strip_lit(s, "Disabled\"}"@) is Some {
        Some((PackageState::Disabled, strip_lit(s, "Disabled\"}"@)->Some_0))
    } else if strip_lit(s, "Uninstalled\"}"@) is Some {
        Some((PackageState::Uninstalled, strip_lit(s, "Uninstalled\"}"@)->Some_0))
    } else {
        None
    }
}

/// One package object.
pub open spec fn parse_package(s: Seq<char>) -> Option<(PkgView, Seq<char>)> {
    match strip_lit(s, "{\"name\":"@) {
        None => None,
        Some(s1) => match parse_string(s1) {
            None => None,
            Some((name, s2)) => match strip_lit(s2, ",\"state\":\""@) {
                None => None,
                Some(s3) => match parse_state_close(s3) {
                    None => None,
                    Some((st, s4)) => Some((PkgView { name, state: st }, s4)),
                },
            },
        },
    }
}

/// A nonempty comma-separated package list.
pub open spec fn parse_package_list(s: Seq<char>) -> Option<(Seq<PkgView>, Seq<char>)>
    decreases s.len(),
{
    match parse_package(s) {
        None => None,
        Some((p, rest)) => if rest.len() > 0 && rest[0] == ',' {
            if rest.len() < s.len() {
                match parse_package_list(rest.drop_first()) {
                    None => None,
                    Some((ps, rest2)) => Some((seq![p] + ps, rest2)),
                }
            } else {
                None
            }
        } else {
            Some((seq![p], rest))
        },
    }
}

/// One user object.
pub open spec fn parse_user(s: Seq<char>) -> Option<(UserBackupView, Seq<char>)> {
    match strip_lit(s, "{\"id\":"@) {
        None => None,
        Some(s1) => match parse_u16(s1) {
            None => None,
            Some((id, s2)) => match strip_lit(s2, ",\"packages\":["@) {
                None => None,
                Some(s3) => if s3.len() > 0 && s3[0] == ']' {
                    match strip_lit(s3, "]}"@) {
                        None => None,
                        Some(s4) => Some(
                            (UserBackupView { id, packages: Seq::empty() }, s4),
                        ),
                    }
                } else {
                    match parse_package_list(s3) {
                        None => None,
                        Some((ps, s4)) => match strip_lit(s4, "]}"@) {
                            None => None,
                            Some(s5) => Some((UserBackupView { id, packages: ps }, s5)),
                        },
                    }
                },
            },
        },
    }
}

/// A nonempty comma-separated user list.
pub open spec fn parse_user_list(s: Seq<char>) -> Option<(Seq<UserBackupView>, Seq<char>)>
    decreases s.len(),
{
    match parse_user(s) {
        None => None,
        Some((u, rest)) => if rest.len() > 0 && rest[0] == ',' {
            if rest.len() < s.len() {
                match parse_user_list(rest.drop_first()) {
                    None => None,
                    Some((us, rest2)) => Some((seq![u] + us, rest2)),
                }
            } else {
                None
            }
        } else {
            Some((seq![u], rest))
        },
    }
}

/// A whole snapshot; the text must be consumed completely.
pub open spec fn spec_parse_backup(s: Seq<char>) -> Option<BackupView> {
    match strip_lit(s, "{\"device_id\":"@) {
        None => None,
        Some(s1) => match parse_string(s1) {
            None => None,
            Some((dev, s2)) => match strip_lit(s2, ",\"users\":["@) {
                None => None,
                Some(s3) => if s3.len() > 0 && s3[0] == ']' {
                    match strip_lit(s3, "]}"@) {
                        None => None,
                        Some(s4) => if s4.len() == 0 {
                            Some(BackupView { device_id: dev, users: Seq::empty() })
                        } else {
                            None
                        },
                    }
                } else {
                    match parse_user_list(s3) {
                        None => None,
                        Some((us, s4)) => match strip_lit(s4, "]}"@) {
                            None => None,
                            Some(s5) => if s5.len() == 0 {
                                Some(BackupView { device_id: dev, users: us })
                            } else {
                                None
                            },
                        },
                    }
                },
            },
        },
    }
}

/// Serializes a snapshot to its canonical text form.
pub fn serialize_backup(b: &PhoneBackup) -> (r: String)
    ensures
        r@ == ser_backup(b@),
{
    let mut out = String::new();
    out.append("{\"device_id\":");
    append_quoted(&mut out, b.device_id.as_str());
    out.append(",\"users\":[");
    let ghost mid = out@;
    let ghost usersv = b@.users;
    let mut j: usize = 0;
    proof {
        assert(usersv.subrange(0, 0) =~= Seq::<UserBackupView>::empty());
        assert(out@ =~= mid + ser_user_list(usersv.subrange(0, 0)));
    }
    while j < b.users.len()
        invariant
            j <= b.users@.len(),
            usersv == b@.users,
            mid == "{\"device_id\":"@ + ser_string(b.device_id@) + ",\"users\":["@,
            out@ == mid + ser_user_list(usersv.subrange(0, j as int)),
        decreases b.users@.len() - j,
    {
        if j > 0 {
            out.append(",");
        }
        append_user(&mut out, &b.users[j]);
        proof {
            assert(usersv[j as int] == b.users@[j as int]@);
            lemma_ser_user_list_snoc(usersv.subrange(0, j as int), usersv[j as int]);
            assert(usersv.subrange(0, j as int + 1) =~= usersv.subrange(0, j as int).push(
                usersv[j as int],
            ));
            if j > 0 {
                reveal_strlit(",");
                assert(out@ =~= mid + ser_user_list(usersv.subrange(0, j as int + 1)));
            } else {
                assert(out@ =~= mid + ser_user_list(usersv.subrange(0, j as int + 1)));
            }
        }
        j = j + 1;
    }
    out.append("]}");
    proof {
        assert(usersv.subrange(0, usersv.len() as int) =~= usersv);
        assert(out@ =~= ser_backup(b@));
    }
    out
}

/// A character's code point is nonnegative, and a control character
/// survives the round trip through its code point.
proof fn lemma_char_code(c: char)
    ensures
        c as int >= 0,
        c as u32 as int == c as int,
        (c as int) < 32 ==> ((c as int) as u8) as char == c,
{
    vstd::utf8::char_is_scalar(c);
    if (c as int) < 32 {
        assert(((c as int) as u8) as char == c);
    }
}

proof fn lemma_strip_lit_concat(lit: Seq<char>, rest: Seq<char>)
    ensures
        strip_lit(lit + rest, lit) == Some(rest),
{
    let s = lit + rest;
    assert(has_prefix(s, lit));
    assert(s.skip(lit.len() as int) =~= rest);
}

proof fn lemma_hex_digit_val(n: int)
    requires
        0 <= n < 16,
    ensures
        is_hex_lower(hex_digit(n)),
        hex_val(hex_digit(n)) == n,
{
    if n < 10 {
        assert(hex_digit(n) as int == 48 + n);
    } else {
        assert(hex_digit(n) as int == 87 + n);
    }
}

/// The escaped body of any text, followed by the closing quote, parses
/// back to exactly that text.
proof fn lemma_parse_esc(x: Seq<char>, rest: Seq<char>)
    ensures
        parse_str_body(esc(x) + seq!['"'] + rest) == Some((x, rest)),
    decreases x.len(),
{
    let s = esc(x) + seq!['"'] + rest;
    if x.len() == 0 {
        assert(esc(x) == Seq::<char>::empty());
        assert(s =~= seq!['"'] + rest);
        assert(s[0] == '"');
        assert(s.drop_first() =~= rest);
        assert(x =~= Seq::<char>::empty());
    } else {
        let c = x[0];
        let x1 = x.drop_first();
        assert(esc(x) == esc_char(c) + esc(x1));
        lemma_parse_esc(x1, rest);
        let s1 = esc(x1) + seq!['"'] + rest;
        if c == '"' {
            assert(s =~= seq!['\\', '"'] + s1);
            assert(s[0] == '\\' && s[1] == '"');
            assert(s.skip(2) =~= s1);
            assert(seq![s[1]] + x1 =~= x);
        } else if c == '\\' {
            assert(s =~= seq!['\\', '\\'] + s1);
            assert(s[0] == '\\' && s[1] == '\\');
            assert(s.skip(2) =~= s1);
            assert(seq![s[1]] + x1 =~= x);
        } else if (c as int) < 32 {
            let h = hex_digit((c as int) / 16);
            let l = hex_digit((c as int) % 16);
            assert(s =~= seq!['\\', 'u', '0', '0', h, l] + s1);
            assert(s[0] == '\\' && s[1] == 'u' && s[2] == '0' && s[3] == '0' && s[4] == h && s[5]
                == l);
            lemma_char_code(c);
            assert(c as int >= 0);
            lemma_hex_digit_val((c as int) / 16);
            lemma_hex_digit_val((c as int) % 16);
            assert(hex_val(s[4]) * 16 + hex_val(s[5]) == c as int);
            assert(((c as int) as u8) as char == c);
            assert(s.skip(6) =~= s1);
            assert(seq![c] + x1 =~= x);
        } else {
            assert(s =~= seq![c] + s1);
            assert(s[0] == c);
            assert(s.drop_first() =~= s1);
            assert(seq![c] + x1 =~= x);
        }
    }
}

/// A serialized quoted string, followed by anything, parses back to
/// the text it quotes.
proof fn lemma_parse_ser_string(x: Seq<char>, rest: Seq<char>)
    ensures
        parse_string(ser_string(x) + rest) == Some((x, rest)),
{
    let s = ser_string(x) + rest;
    assert(s[0] == '"');
    assert(s.len() > 0);
    assert(s.drop_first() =~= esc(x) + seq!['"'] + rest);
    lemma_parse_esc(x, rest);
}

proof fn lemma_dec_digit_val(n: int)
    requires
        0 <= n < 10,
    ensures
        is_dec_digit(digit_char(n)),
        dec_val(digit_char(n)) == n,
{
    assert(digit_char(n) as int == 48 + n);
}

proof fn lemma_spec_dec_digits(n: nat)
    ensures
        forall|i: int| 0 <= i < spec_dec(n).len() ==> is_dec_digit(#[trigger] spec_dec(n)[i]),
    decreases n,
{
    if n < 10 {
        lemma_dec_digit_val(n as int);
        assert(spec_dec(n)[0] == digit_char(n as int));
    } else {
        lemma_spec_dec_digits(n / 10);
        lemma_dec_digit_val((n % 10) as int);
        assert forall|i: int| 0 <= i < spec_dec(n).len() implies is_dec_digit(
            #[trigger] spec_dec(n)[i],
        ) by {
            if i < spec_dec(n / 10).len() {
                assert(spec_dec(n)[i] == spec_dec(n / 10)[i]);
            } else {
                assert(spec_dec(n)[i] == digit_char((n % 10) as int));
            }
        }
    }
}

proof fn lemma_take_digits_all(d: Seq<char>, rest: Seq<char>)
    requires
        forall|i: int| 0 <= i < d.len() ==> is_dec_digit(#[trigger] d[i]),
        rest.len() == 0 || !is_dec_digit(rest[0]),
    ensures
        take_digits(d + rest) == (d, rest),
    decreases d.len(),
{
    let s = d + rest;
    if d.len() == 0 {
        assert(s =~= rest);
        assert(take_digits(s) == (Seq::<char>::empty(), s));
        assert(d =~= Seq::<char>::empty());
    } else {
        assert(s[0] == d[0]);
        assert(is_dec_digit(s[0]));
        assert(s.drop_first() =~= d.drop_first() + rest);
        lemma_take_digits_all(d.drop_first(), rest);
        assert(take_digits(s.drop_first()) == (d.drop_first(), rest));
        assert(take_digits(s).0 == seq![s[0]] + d.drop_first());
        assert(take_digits(s).1 == rest);
        assert(seq![s[0]] + d.drop_first() =~= d);
        assert(take_digits(s) == (d, rest));
    }
}

proof fn lemma_digits_val_dec(n: nat)
    ensures
        digits_val(spec_dec(n)) == n,
    decreases n,
{
    if n < 10 {
        assert(spec_dec(n).drop_last() =~= Seq::<char>::empty());
        assert(digits_val(Seq::<char>::empty()) == 0);
        assert(spec_dec(n).last() == digit_char(n as int));
        lemma_dec_digit_val(n as int);
        assert(digits_val(spec_dec(n)) == 0 * 10 + dec_val(digit_char(n as int)));
    } else {
        lemma_digits_val_dec(n / 10);
        assert(spec_dec(n).drop_last() =~= spec_dec(n / 10));
        assert(spec_dec(n).last() == digit_char((n % 10) as int));
        lemma_dec_digit_val((n % 10) as int);
        assert(digits_val(spec_dec(n)) == digits_val(spec_dec(n).drop_last()) * 10 + dec_val(
            spec_dec(n).last(),
        ));
        assert(digits_val(spec_dec(n)) == (n / 10) * 10 + (n % 10));
        assert((n / 10) * 10 + (n % 10) == n);
    }
}

/// The decimal digits of a user id, followed by anything that does not
/// begin with a digit, parse back to exactly that id.
proof fn lemma_parse_u16_dec(id: u16, rest: Seq<char>)
    requires
        rest.len() == 0 || !is_dec_digit(rest[0]),
    ensures
        parse_u16(spec_dec(id as nat) + rest) == Some((id, rest)),
{
    lemma_spec_dec_digits(id as nat);
    lemma_take_digits_all(spec_dec(id as nat), rest);
    lemma_digits_val_dec(id as nat);
    assert(spec_dec(id as nat).len() >= 1);
}

proof fn lemma_parse_state_close(st: PackageState, rest: Seq<char>)
    requires
        st != PackageState::All,
    ensures
        parse_state_close(state_name(st) + "\"}"@ + rest) == Some((st, rest)),
{
    reveal_strlit("Enabled");
    reveal_strlit("Disabled");
    reveal_strlit("Uninstalled");
    reveal_strlit("Enabled\"}");
    reveal_strlit("Disabled\"}");
    reveal_strlit("Uninstalled\"}");
    reveal_strlit("\"}");
    let s = state_name(st) + "\"}"@ + rest;
    match st {
        PackageState::Enabled => {
            assert(s =~= "Enabled\"}"@ + rest);
            lemma_strip_lit_concat("Enabled\"}"@, rest);
        },
        PackageState::Disabled => {
            assert(s =~= "Disabled\"}"@ + rest);
            assert(s[0] != "Enabled\"}"@[0]);
            assert(strip_lit(s, "Enabled\"}"@) is None);
            lemma_strip_lit_concat("Disabled\"}"@, rest);
        },
        PackageState::Uninstalled => {
            assert(s =~= "Uninstalled\"}"@ + rest);
            assert(s[0] != "Enabled\"}"@[0]);
            assert(strip_lit(s, "Enabled\"}"@) is None);
            assert(s[0] != "Disabled\"}"@[0]);
            assert(strip_lit(s, "Disabled\"}"@) is None);
            lemma_strip_lit_concat("Uninstalled\"}"@, rest);
        },
        PackageState::All => {
        },
    }
}

/// A serialized package, followed by anything, parses back to itself.
proof fn lemma_parse_ser_package(p: PkgView, rest: Seq<char>)
    requires
        p.wf(),
    ensures
        parse_package(ser_package(p) + rest) == Some((p, rest)),
{
    let s = ser_package(p) + rest;
    let r3 = state_name(p.state) + "\"}"@ + rest;
    let r2 = ",\"state\":\""@ + r3;
    let r1 = ser_string(p.name) + r2;
    assert(s =~= "{\"name\":"@ + r1);
    lemma_strip_lit_concat("{\"name\":"@, r1);
    lemma_parse_ser_string(p.name, r2);
    assert(r2 =~= ",\"state\":\""@ + r3);
    lemma_strip_lit_concat(",\"state\":\""@, r3);
    lemma_parse_state_close(p.state, rest);
    assert(PkgView { name: p.name, state: p.state } =~= p);
}

/// A serialized nonempty package list, followed by anything that does
/// not begin with a separator, parses back to itself.
proof fn lemma_parse_ser_package_list(ps: Seq<PkgView>, rest: Seq<char>)
    requires
        ps.len() > 0,
        forall|i: int| 0 <= i < ps.len() ==> (#[trigger] ps[i]).wf(),
        rest.len() == 0 || rest[0] != ',',
    ensures
        parse_package_list(ser_package_list(ps) + rest) == Some((ps, rest)),
    decreases ps.len(),
{
    reveal_strlit(",");
    reveal_strlit("{\"name\":");
    let s = ser_package_list(ps) + rest;
    if ps.len() == 1 {
        assert(s =~= ser_package(ps[0]) + rest);
        lemma_parse_ser_package(ps[0], rest);
        assert(seq![ps[0]] =~= ps);
    } else {
        let tail = ser_package_list(ps.drop_first()) + rest;
        let r1 = ","@ + tail;
        assert(s =~= ser_package(ps[0]) + r1);
        lemma_parse_ser_package(ps[0], r1);
        assert(r1.len() > 0 && r1[0] == ',');
        assert(ser_package(ps[0]).len() >= "{\"name\":"@.len());
        assert(r1.len() < s.len());
        assert(r1.drop_first() =~= tail);
        assert(forall|i: int|
            0 <= i < ps.drop_first().len() ==> (#[trigger] ps.drop_first()[i]).wf());
        lemma_parse_ser_package_list(ps.drop_first(), rest);
        assert(seq![ps[0]] + ps.drop_first() =~= ps);
    }
}

/// A serialized user, followed by anything, parses back to itself.
proof fn lemma_parse_ser_user(u: UserBackupView, rest: Seq<char>)
    requires
        u.wf(),
    ensures
        parse_user(ser_user(u) + rest) == Some((u, rest)),
{
    reveal_strlit(",\"packages\":[");
    reveal_strlit("]}");
    reveal_strlit("{\"name\":");
    let s = ser_user(u) + rest;
    let r3 = ser_package_list(u.packages) + "]}"@ + rest;
    let r2 = ",\"packages\":["@ + r3;
    let r1 = spec_dec(u.id as nat) + r2;
    assert(s =~= "{\"id\":"@ + r1);
    lemma_strip_lit_concat("{\"id\":"@, r1);
    assert(r2[0] == ',');
    assert(!is_dec_digit(r2[0]));
    lemma_parse_u16_dec(u.id, r2);
    assert(r2 =~= ",\"packages\":["@ + r3);
    lemma_strip_lit_concat(",\"packages\":["@, r3);
    if u.packages.len() == 0 {
        assert(ser_package_list(u.packages) == Seq::<char>::empty());
        assert(r3 =~= "]}"@ + rest);
        assert(r3[0] == ']');
        lemma_strip_lit_concat("]}"@, rest);
        assert(UserBackupView { id: u.id, packages: Seq::<PkgView>::empty() } =~= u);
    } else {
        let r4 = "]}"@ + rest;
        assert(r3 =~= ser_package_list(u.packages) + r4);
        assert(ser_package(u.packages[0])[0] == '{');
        assert(ser_package_list(u.packages)[0] == '{');
        assert(r3.len() > 0 && r3[0] == '{');
        assert(r3[0] != ']');
        assert(r4[0] == ']' && r4[0] != ',');
        lemma_parse_ser_package_list(u.packages, r4);
        lemma_strip_lit_concat("]}"@, rest);
        assert(UserBackupView { id: u.id, packages: u.packages } =~= u);
    }
}

/// A serialized nonempty user list, followed by anything that does not
/// begin with a separator, parses back to itself.
proof fn lemma_parse_ser_user_list(us: Seq<UserBackupView>, rest: Seq<char>)
    requires
        us.len() > 0,
        forall|i: int| 0 <= i < us.len() ==> (#[trigger] us[i]).wf(),
        rest.len() == 0 || rest[0] != ',',
    ensures
        parse_user_list(ser_user_list(us) + rest) == Some((us, rest)),
    decreases us.len(),
{
    reveal_strlit(",");
    reveal_strlit("{\"id\":");
    let s = ser_user_list(us) + rest;
    if us.len() == 1 {
        assert(s =~= ser_user(us[0]) + rest);
        lemma_parse_ser_user(us[0], rest);
        assert(seq![us[0]] =~= us);
    } else {
        let tail = ser_user_list(us.drop_first()) + rest;
        let r1 = ","@ + tail;
        assert(s =~= ser_user(us[0]) + r1);
        lemma_parse_ser_user(us[0], r1);
        assert(r1.len() > 0 && r1[0] == ',');
        assert(ser_user(us[0]).len() >= "{\"id\":"@.len());
        assert(r1.len() < s.len());
        assert(r1.drop_first() =~= tail);
        assert(forall|i: int|
            0 <= i < us.drop_first().len() ==> (#[trigger] us.drop_first()[i]).wf());
        lemma_parse_ser_user_list(us.drop_first(), rest);
        assert(seq![us[0]] + us.drop_first() =~= us);
    }
}

/// The snapshot text does not match the canonical form.
#[derive(Clone, Copy, Debug, PartialEq, Eq, Structural)]
pub struct ParseError;

/// The characters of a string slice.
fn str_chars(s: &str) -> (r: Vec<char>)
    ensures
        r@ == s@,
{
    let n = s.unicode_len();
    let mut r: Vec<char> = Vec::new();
    let mut i: usize = 0;
    while i < n
        invariant
            i <= n,
            n == s@.len(),
            r@ == s@.subrange(0, i as int),
        decreases n - i,
    {
        r.push(s.get_char(i));
        proof {
            assert(s@.subrange(0, i as int + 1) =~= s@.subrange(0, i as int).push(s@[i as int]));
        }
        i = i + 1;
    }
    proof {
        assert(s@.subrange(0, s@.len() as int) =~= s@);
    }
    r
}

/// Matches a literal at position `i`; on success returns the position
/// just past it.
fn e_lit(s: &Vec<char>, i: usize, lit: &str) -> (r: Option<usize>)
    requires
        i <= s@.len(),
    ensures
        match r {
            Some(j) => i <= j <= s@.len() && j - i == lit@.len() && strip_lit(
                s@.skip(i as int),
                lit@,
            ) == Some(s@.skip(j as int)),
            None => strip_lit(s@.skip(i as int), lit@) is None,
        },
{
    let n = lit.unicode_len();
    if n > s.len() - i {
        proof {
            assert(!has_prefix(s@.skip(i as int), lit@));
        }
        return None;
    }
    let mut k: usize = 0;
    while k < n
        invariant
            k <= n,
            n == lit@.len(),
            i + n <= s@.len(),
            i + n <= usize::MAX,
            forall|m: int| 0 <= m < k ==> s@[i + m] == lit@[m],
        decreases n - k,
    {
        if s[i + k] != lit.get_char(k) {
            proof {
                assert(s@.skip(i as int)[k as int] == s@[i + k as int]);
                assert(!has_prefix(s@.skip(i as int), lit@));
            }
            return None;
        }
        k = k + 1;
    }
    proof {
        assert forall|m: int| 0 <= m < lit@.len() implies s@.skip(i as int)[m] == lit@[m] by {
            assert(s@.skip(i as int)[m] == s@[i + m]);
        }
        assert(has_prefix(s@.skip(i as int), lit@));
        assert(s@.skip(i as int).skip(lit@.len() as int) =~= s@.skip(i as int + lit@.len() as int));
    }
    Some(i + n)
}

/// Prepends already-read text to the outcome of parsing the remainder
/// of a string body.
spec fn prepend_chars(a: Seq<char>, r: Option<(Seq<char>, Seq<char>)>) -> Option<
    (Seq<char>, Seq<char>),
> {
    match r {
        Some(tr) => Some((a + tr.0, tr.1)),
        None => None,
    }
}

proof fn lemma_prepend_chars_assoc(a: Seq<char>, b: Seq<char>, r: Option<(Seq<char>, Seq<char>)>)
    ensures
        prepend_chars(a, prepend_chars(b, r)) == prepend_chars(a + b, r),
{
    match r {
        Some(tr) => {
            assert(a + (b + tr.0) =~= (a + b) + tr.0);
        },
        None => {
        },
    }
}

/// The value of a lower-case hexadecimal digit character, if it is one.
fn hexval(c: char) -> (r: Option<u8>)
    ensures
        match r {
            Some(v) => is_hex_lower(c) && v as int == hex_val(c) && v < 16,
            None => !is_hex_lower(c),
        },
{
    proof {
        lemma_char_code(c);
    }
    let u = c as u32;
    if 48 <= u && u <= 57 {
        Some((u - 48) as u8)
    } else if 97 <= u && u <= 102 {
        Some((u - 87) as u8)
    } else {
        None
    }
}

/// Parses a string body from just after the opening quote through the
/// closing quote, returning the unescaped text.
fn e_parse_str_body(s: &Vec<char>, i: usize) -> (r: Option<(String, usize)>)
    requires
        i <= s@.len(),
    ensures
        match r {
            Some(p) => i <= p.1 <= s@.len() && parse_str_body(s@.skip(i as int)) == Some(
                (p.0@, s@.skip(p.1 as int)),
            ),
            None => parse_str_body(s@.skip(i as int)) is None,
        },
{
    let mut acc = String::new();
    let mut cur: usize = i;
    proof {
        assert(acc@ =~= Seq::<char>::empty());
    }
    loop
        invariant
            i <= cur <= s@.len(),
            parse_str_body(s@.skip(i as int)) == prepend_chars(
                acc@,
                parse_str_body(s@.skip(cur as int)),
            ),
        decreases s@.len() - cur,
    {
        if cur >= s.len() {
            proof {
                assert(s@.skip(cur as int).len() == 0);
            }
            return None;
        }
        let c = s[cur];
        proof {
            assert(s@.skip(cur as int)[0] == s@[cur as int]);
            lemma_char_code(c);
        }
        if c == '"' {
            proof {
                assert(s@.skip(cur as int).drop_first() =~= s@.skip(cur as int + 1));
                assert(acc@ + Seq::<char>::empty() =~= acc@);
            }
            return Some((acc, cur + 1));
        } else if c == '\\' {
            if s.len() - cur < 2 {
                proof {
                    assert(s@.skip(cur as int).len() < 2);
                }
                return None;
            }
            let d = s[cur + 1];
            proof {
                assert(s@.skip(cur as int)[1] == s@[cur as int + 1]);
            }
            if d == '"' || d == '\\' {
                let ghost prev = acc@;
                push_char(&mut acc, d);
                proof {
                    assert(s@.skip(cur as int).skip(2) =~= s@.skip(cur as int + 2));
                    lemma_prepend_chars_assoc(prev, seq![d], parse_str_body(s@.skip(cur as int + 2)));
                    assert(prev + seq![d] =~= acc@);
                }
                cur = cur + 2;
            } else if d == 'u' {
                if s.len() - cur < 6 {
                    proof {
                        assert(s@.skip(cur as int).len() < 6);
                    }
                    return None;
                }
                let z1 = s[cur + 2];
                let z2 = s[cur + 3];
                proof {
                    assert(s@.skip(cur as int)[2] == s@[cur as int + 2]);
                    assert(s@.skip(cur as int)[3] == s@[cur as int + 3]);
                    assert(s@.skip(cur as int)[4] == s@[cur as int + 4]);
                    assert(s@.skip(cur as int)[5] == s@[cur as int + 5]);
                }
                if z1 != '0' || z2 != '0' {
                    return None;
                }
                let h = hexval(s[cur + 4]);
                let l = hexval(s[cur + 5]);
                match (h, l) {
                    (Some(hv), Some(lv)) => {
                        let code: u8 = hv * 16 + lv;
                        if code >= 32 {
                            return None;
                        }
                        let e = code as char;
                        let ghost prev = acc@;
                        push_char(&mut acc, e);
                        proof {
                            let sk = s@.skip(cur as int);
                            assert(e == ((hex_val(sk[4]) * 16 + hex_val(sk[5])) as u8) as char);
                            assert(s@.skip(cur as int).skip(6) =~= s@.skip(cur as int + 6));
                            lemma_prepend_chars_assoc(
                                prev,
                                seq![e],
                                parse_str_body(s@.skip(cur as int + 6)),
                            );
                            assert(prev + seq![e] =~= acc@);
                        }
                        cur = cur + 6;
                    },
                    _ => {
                        return None;
                    },
                }
            } else {
                return None;
            }
        } else if (c as u32) < 32 {
            return None;
        } else {
            let ghost prev = acc@;
            push_char(&mut acc, c);
            proof {
                assert(s@.skip(cur as int).drop_first() =~= s@.skip(cur as int + 1));
                lemma_prepend_chars_assoc(prev, seq![c], parse_str_body(s@.skip(cur as int + 1)));
                assert(prev + seq![c] =~= acc@);
            }
            cur = cur + 1;
        }
    }
}

/// Parses a complete quoted string at position `i`.
fn e_parse_string(s: &Vec<char>, i: usize) -> (r: Option<(String, usize)>)
    requires
        i <= s@.len(),
    ensures
        match r {
            Some(p) => i < p.1 <= s@.len() && parse_string(s@.skip(i as int)) == Some(
                (p.0@, s@.skip(p.1 as int)),
            ),
            None => parse_string(s@.skip(i as int)) is None,
        },
{
    if i >= s.len() {
        return None;
    }
    if s[i] != '"' {
        proof {
            assert(s@.skip(i as int)[0] == s@[i as int]);
        }
        return None;
    }
    proof {
        assert(s@.skip(i as int)[0] == s@[i as int]);
        assert(s@.skip(i as int).drop_first() =~= s@.skip(i as int + 1));
    }
    e_parse_str_body(s, i + 1)
}

/// Parses a decimal user id at position `i`.
fn e_parse_u16(s: &Vec<char>, i: usize) -> (r: Option<(u16, usize)>)
    requires
        i <= s@.len(),
    ensures
        match r {
            Some(p) => i <= p.1 <= s@.len() && parse_u16(s@.skip(i as int)) == Some(
                (p.0, s@.skip(p.1 as int)),
            ),
            None => parse_u16(s@.skip(i as int)) is None,
        },
{
    let mut j: usize = i;
    let mut acc: u32 = 0;
    loop
        invariant
            i <= j <= s@.len(),
            forall|m: int| i <= m < j ==> is_dec_digit(#[trigger] s@[m]),
            acc <= 65536,
            acc <= 65535 ==> acc as int == digits_val(s@.subrange(i as int, j as int)),
            acc == 65536 ==> digits_val(s@.subrange(i as int, j as int)) > 65535,
        ensures
            i <= j <= s@.len(),
            forall|m: int| i <= m < j ==> is_dec_digit(#[trigger] s@[m]),
            acc <= 65536,
            acc <= 65535 ==> acc as int == digits_val(s@.subrange(i as int, j as int)),
            acc == 65536 ==> digits_val(s@.subrange(i as int, j as int)) > 65535,
            j == s@.len() || !is_dec_digit(s@[j as int]),
        decreases s@.len() - j,
    {
        if j >= s.len() {
            break;
        }
        let c = s[j];
        proof {
            lemma_char_code(c);
        }
        let u: u32 = c as u32;
        if !(48 <= u && u <= 57) {
            break;
        }
        let d: u32 = u - 48;
        proof {
            assert(is_dec_digit(s@[j as int]));
            assert(d as int == dec_val(s@[j as int]));
            assert(s@.subrange(i as int, j as int + 1).drop_last() =~= s@.subrange(
                i as int,
                j as int,
            ));
            assert(s@.subrange(i as int, j as int + 1).last() == s@[j as int]);
        }
        if acc <= 65535 {
            let next: u32 = acc * 10 + d;
            if next > 65535 {
                acc = 65536;
            } else {
                acc = next;
            }
        } else {
            proof {
                lemma_digits_val_nonneg(s@.subrange(i as int, j as int));
            }
        }
        j = j + 1;
    }
    proof {
        let d = s@.subrange(i as int, j as int);
        let rest = s@.skip(j as int);
        assert(s@.skip(i as int) =~= d + rest);
        if j < s@.len() {
            assert(rest[0] == s@[j as int]);
            lemma_char_code(s@[j as int]);
        } else {
            assert(rest.len() == 0);
        }
        lemma_take_digits_all(d, rest);
    }
    if j == i {
        return None;
    }
    if acc > 65535 {
        return None;
    }
    Some((acc as u16, j))
}

proof fn lemma_digits_val_nonneg(d: Seq<char>)
    requires
        forall|m: int| 0 <= m < d.len() ==> is_dec_digit(#[trigger] d[m]),
    ensures
        digits_val(d) >= 0,
    decreases d.len(),
{
    if d.len() > 0 {
        lemma_digits_val_nonneg(d.drop_last());
    }
}

/// Parses a state name and the closing `"}` of a package object.
fn e_parse_state(s: &Vec<char>, i: usize) -> (r: Option<(PackageState, usize)>)
    requires
        i <= s@.len(),
    ensures
        match r {
            Some(p) => i <= p.1 <= s@.len() && parse_state_close(s@.skip(i as int)) == Some(
                (p.0, s@.skip(p.1 as int)),
            ),
            None => parse_state_close(s@.skip(i as int)) is None,
        },
{
    if let Some(j) = e_lit(s, i, "Enabled\"}") {
        return Some((PackageState::Enabled, j));
    }
    if let Some(j) = e_lit(s, i, "Disabled\"}") {
        return Some((PackageState::Disabled, j));
    }
    if let Some(j) = e_lit(s, i, "Uninstalled\"}") {
        return Some((PackageState::Uninstalled, j));
    }
    None
}

/// Parses one package object at position `i`.
fn e_parse_package(s: &Vec<char>, i: usize) -> (r: Option<(CorePackage, usize)>)
    requires
        i <= s@.len(),
    ensures
        match r {
            Some(p) => i < p.1 <= s@.len() && parse_package(s@.skip(i as int)) == Some(
                (p.0@, s@.skip(p.1 as int)),
            ),
            None => parse_package(s@.skip(i as int)) is None,
        },
{
    let j1 = match e_lit(s, i, "{\"name\":") {
        Some(j) => j,
        None => {
            return None;
        },
    };
    let (name, j2) = match e_parse_string(s, j1) {
        Some(p) => p,
        None => {
            return None;
        },
    };
    let j3 = match e_lit(s, j2, ",\"state\":\"") {
        Some(j) => j,
        None => {
            return None;
        },
    };
    let (st, j4) = match e_parse_state(s, j3) {
        Some(p) => p,
        None => {
            return None;
        },
    };
    proof {
        reveal_strlit("{\"name\":");
        let pv = PkgView { name: name@, state: st };
        assert(parse_package(s@.skip(i as int)) == Some((pv, s@.skip(j4 as int))));
        let pkg = CorePackage { name: name, state: st };
        assert(pkg@ =~= pv);
    }
    Some((CorePackage { name, state: st }, j4))
}

/// Prepends already-parsed packages to the outcome of parsing the rest
/// of a package list.
spec fn prepend_pkgs(a: Seq<PkgView>, r: Option<(Seq<PkgView>, Seq<char>)>) -> Option<
    (Seq<PkgView>, Seq<char>),
> {
    match r {
        Some(tr) => Some((a + tr.0, tr.1)),
        None => None,
    }
}

proof fn lemma_prepend_pkgs_assoc(a: Seq<PkgView>, b: Seq<PkgView>, r: Option<(Seq<PkgView>, Seq<char>)>)
    ensures
        prepend_pkgs(a, prepend_pkgs(b, r)) == prepend_pkgs(a + b, r),
{
    match r {
        Some(tr) => {
            assert(a + (b + tr.0) =~= (a + b) + tr.0);
        },
        None => {
        },
    }
}

/// Parses a nonempty comma-separated package list at position `i`.
fn e_parse_package_list(s: &Vec<char>, i: usize) -> (r: Option<(Vec<CorePackage>, usize)>)
    requires
        i <= s@.len(),
    ensures
        match r {
            Some(p) => i <= p.1 <= s@.len() && parse_package_list(s@.skip(i as int)) == Some(
                (pkg_views(p.0@), s@.skip(p.1 as int)),
            ),
            None => parse_package_list(s@.skip(i as int)) is None,
        },
{
    let mut acc: Vec<CorePackage> = Vec::new();
    let mut cur: usize = i;
    proof {
        assert(pkg_views(acc@) =~= Seq::<PkgView>::empty());
    }
    loop
        invariant
            i <= cur <= s@.len(),
            parse_package_list(s@.skip(i as int)) == prepend_pkgs(
                pkg_views(acc@),
                parse_package_list(s@.skip(cur as int)),
            ),
        decreases s@.len() - cur,
    {
        let (p, j) = match e_parse_package(s, cur) {
            Some(p) => p,
            None => {
                return None;
            },
        };
        let ghost pv = p@;
        let ghost prev = pkg_views(acc@);
        acc.push(p);
        proof {
            assert(pkg_views(acc@) =~= prev.push(pv));
            assert(prev.push(pv) =~= prev + seq![pv]);
        }
        if j < s.len() && s[j] == ',' {
            proof {
                let rest = s@.skip(j as int);
                assert(rest[0] == s@[j as int]);
                assert(rest.len() < s@.skip(cur as int).len());
                assert(rest.drop_first() =~= s@.skip(j as int + 1));
                assert(parse_package_list(s@.skip(cur as int)) == prepend_pkgs(
                    seq![pv],
                    parse_package_list(s@.skip(j as int + 1)),
                ));
                lemma_prepend_pkgs_assoc(
                    prev,
                    seq![pv],
                    parse_package_list(s@.skip(j as int + 1)),
                );
            }
            cur = j + 1;
        } else {
            proof {
                let rest = s@.skip(j as int);
                if j < s@.len() {
                    assert(rest[0] == s@[j as int]);
                } else {
                    assert(rest.len() == 0);
                }
                assert(parse_package_list(s@.skip(cur as int)) == Some((seq![pv], rest)));
                assert(prev + seq![pv] =~= pkg_views(acc@));
            }
            return Some((acc, j));
        }
    }
}

/// Parses one user object at position `i`.
fn e_parse_user(s: &Vec<char>, i: usize) -> (r: Option<(UserBackup, usize)>)
    requires
        i <= s@.len(),
    ensures
        match r {
            Some(p) => i < p.1 <= s@.len() && parse_user(s@.skip(i as int)) == Some(
                (p.0@, s@.skip(p.1 as int)),
            ),
            None => parse_user(s@.skip(i as int)) is None,
        },
{
    let j1 = match e_lit(s, i, "{\"id\":") {
        Some(j) => j,
        None => {
            return None;
        },
    };
    let (id, j2) = match e_parse_u16(s, j1) {
        Some(p) => p,
        None => {
            return None;
        },
    };
    let j3 = match e_lit(s, j2, ",\"packages\":[") {
        Some(j) => j,
        None => {
            return None;
        },
    };
    proof {
        reveal_strlit("{\"id\":");
        reveal_strlit(",\"packages\":[");
    }
    if j3 < s.len() && s[j3] == ']' {
        proof {
            assert(s@.skip(j3 as int)[0] == s@[j3 as int]);
        }
        let j4 = match e_lit(s, j3, "]}") {
            Some(j) => j,
            None => {
                return None;
            },
        };
        let ub = UserBackup { id, packages: Vec::new() };
        proof {
            assert(pkg_views(ub.packages@) =~= Seq::<PkgView>::empty());
            assert(ub@ =~= UserBackupView { id, packages: Seq::<PkgView>::empty() });
        }
        return Some((ub, j4));
    }
    proof {
        if j3 < s@.len() {
            assert(s@.skip(j3 as int)[0] == s@[j3 as int]);
        } else {
            assert(s@.skip(j3 as int).len() == 0);
        }
    }
    let (pkgs, j4) = match e_parse_package_list(s, j3) {
        Some(p) => p,
        None => {
            return None;
        },
    };
    let j5 = match e_lit(s, j4, "]}") {
        Some(j) => j,
        None => {
            return None;
        },
    };
    let ub = UserBackup { id, packages: pkgs };
    proof {
        assert(ub@ =~= UserBackupView { id, packages: pkg_views(pkgs@) });
    }
    Some((ub, j5))
}

/// Prepends already-parsed users to the outcome of parsing the rest of
/// a user list.
spec fn prepend_users(a: Seq<UserBackupView>, r: Option<(Seq<UserBackupView>, Seq<char>)>) -> Option<
    (Seq<UserBackupView>, Seq<char>),
> {
    match r {
        Some(tr) => Some((a + tr.0, tr.1)),
        None => None,
    }
}

proof fn lemma_prepend_users_assoc(
    a: Seq<UserBackupView>,
    b: Seq<UserBackupView>,
    r: Option<(Seq<UserBackupView>, Seq<char>)>,
)
    ensures
        prepend_users(a, prepend_users(b, r)) == prepend_users(a + b, r),
{
    match r {
        Some(tr) => {
            assert(a + (b + tr.0) =~= (a + b) + tr.0);
        },
        None => {
        },
    }
}

/// The views of a sequence of recorded users.
pub open spec fn user_views(s: Seq<UserBackup>) -> Seq<UserBackupView> {
    s.map_values(|u: UserBackup| u@)
}

/// Parses a nonempty comma-separated user list at position `i`.
fn e_parse_user_list(s: &Vec<char>, i: usize) -> (r: Option<(Vec<UserBackup>, usize)>)
    requires
        i <= s@.len(),
    ensures
        match r {
            Some(p) => i <= p.1 <= s@.len() && parse_user_list(s@.skip(i as int)) == Some(
                (user_views(p.0@), s@.skip(p.1 as int)),
            ),
            None => parse_user_list(s@.skip(i as int)) is None,
        },
{
    let mut acc: Vec<UserBackup> = Vec::new();
    let mut cur: usize = i;
    proof {
        assert(user_views(acc@) =~= Seq::<UserBackupView>::empty());
    }
    loop
        invariant
            i <= cur <= s@.len(),
            parse_user_list(s@.skip(i as int)) == prepend_users(
                user_views(acc@),
                parse_user_list(s@.skip(cur as int)),
            ),
        decreases s@.len() - cur,
    {
        let (u, j) = match e_parse_user(s, cur) {
            Some(p) => p,
            None => {
                return None;
            },
        };
        let ghost uv = u@;
        let ghost prev = user_views(acc@);
        acc.push(u);
        proof {
            assert(user_views(acc@) =~= prev.push(uv));
            assert(prev.push(uv) =~= prev + seq![uv]);
        }
        if j < s.len() && s[j] == ',' {
            proof {
                let rest = s@.skip(j as int);
                assert(rest[0] == s@[j as int]);
                assert(rest.len() < s@.skip(cur as int).len());
                assert(rest.drop_first() =~= s@.skip(j as int + 1));
                assert(parse_user_list(s@.skip(cur as int)) == prepend_users(
                    seq![uv],
                    parse_user_list(s@.skip(j as int + 1)),
                ));
                lemma_prepend_users_assoc(prev, seq![uv], parse_user_list(s@.skip(j as int + 1)));
            }
            cur = j + 1;
        } else {
            proof {
                let rest = s@.skip(j as int);
                if j < s@.len() {
                    assert(rest[0] == s@[j as int]);
                } else {
                    assert(rest.len() == 0);
                }
                assert(parse_user_list(s@.skip(cur as int)) == Some((seq![uv], rest)));
                assert(prev + seq![uv] =~= user_views(acc@));
            }
            return Some((acc, j));
        }
    }
}

/// Parses the canonical text form back into a snapshot. Returns `Ok`
/// exactly on texts that match the canonical form completely, and a
/// recoverable `ParseError` on everything else.
pub fn parse_backup(data: &str) -> (r: Result<PhoneBackup, ParseError>)
    ensures
        match r {
            Ok(b) => spec_parse_backup(data@) == Some(b@),
            Err(_) => spec_parse_backup(data@) is None,
        },
{
    let s = str_chars(data);
    proof {
        assert(s@.skip(0) =~= data@);
    }
    let j1 = match e_lit(&s, 0, "{\"device_id\":") {
        Some(j) => j,
        None => {
            return Err(ParseError);
        },
    };
    let (dev, j2) = match e_parse_string(&s, j1) {
        Some(p) => p,
        None => {
            return Err(ParseError);
        },
    };
    let j3 = match e_lit(&s, j2, ",\"users\":[") {
        Some(j) => j,
        None => {
            return Err(ParseError);
        },
    };
    if j3 < s.len() && s[j3] == ']' {
        proof {
            assert(s@.skip(j3 as int)[0] == s@[j3 as int]);
        }
        let j4 = match e_lit(&s, j3, "]}") {
            Some(j) => j,
            None => {
                return Err(ParseError);
            },
        };
        if j4 != s.len() {
            proof {
                assert(s@.skip(j4 as int).len() > 0);
            }
            return Err(ParseError);
        }
        let b = PhoneBackup { device_id: dev, users: Vec::new() };
        proof {
            assert(s@.skip(j4 as int).len() == 0);
            assert(user_views(b.users@) =~= Seq::<UserBackupView>::empty());
            assert(b@ =~= BackupView { device_id: b.device_id@, users: Seq::<UserBackupView>::empty() });
        }
        return Ok(b);
    }
    proof {
        if j3 < s@.len() {
            assert(s@.skip(j3 as int)[0] == s@[j3 as int]);
        } else {
            assert(s@.skip(j3 as int).len() == 0);
        }
    }
    let (users, j4) = match e_parse_user_list(&s, j3) {
        Some(p) => p,
        None => {
            return Err(ParseError);
        },
    };
    let j5 = match e_lit(&s, j4, "]}") {
        Some(j) => j,
        None => {
            return Err(ParseError);
        },
    };
    if j5 != s.len() {
        proof {
            assert(s@.skip(j5 as int).len() > 0);
        }
        return Err(ParseError);
    }
    let b = PhoneBackup { device_id: dev, users };
    proof {
        assert(s@.skip(j5 as int).len() == 0);
        assert(b@ =~= BackupView { device_id: b.device_id@, users: user_views(b.users@) });
    }
    Ok(b)
}

/// Round trip: parsing the canonical text of any well-formed snapshot
/// yields exactly that snapshot, so a snapshot written and read back
/// reproduces every recorded (user id, package name, state) triple.
pub proof fn lemma_parse_ser_backup(b: BackupView)
    requires
        b.wf(),
    ensures
        spec_parse_backup(ser_backup(b)) == Some(b),
{
    reveal_strlit(",\"users\":[");
    reveal_strlit("]}");
    reveal_strlit("{\"id\":");
    let s = ser_backup(b);
    let r3 = ser_user_list(b.users) + "]}"@;
    let r2 = ",\"users\":["@ + r3;
    let r1 = ser_string(b.device_id) + r2;
    assert(s =~= "{\"device_id\":"@ + r1);
    lemma_strip_lit_concat("{\"device_id\":"@, r1);
    lemma_parse_ser_string(b.device_id, r2);
    assert(r2 =~= ",\"users\":["@ + r3);
    lemma_strip_lit_concat(",\"users\":["@, r3);
    if b.users.len() == 0 {
        assert(ser_user_list(b.users) == Seq::<char>::empty());
        assert(r3 =~= "]}"@ + Seq::<char>::empty());
        assert(r3[0] == ']');
        lemma_strip_lit_concat("]}"@, Seq::<char>::empty());
        assert(BackupView { device_id: b.device_id, users: Seq::<UserBackupView>::empty() } =~= b);
    } else {
        let r4 = "]}"@ + Seq::<char>::empty();
        assert(r4 =~= "]}"@);
        assert(r3 =~= ser_user_list(b.users) + r4);
        assert(ser_user(b.users[0])[0] == '{');
        assert(ser_user_list(b.users)[0] == '{');
        assert(r3.len() > 0 && r3[0] == '{');
        assert(r3[0] != ']');
        assert(r4[0] == ']' && r4[0] != ',');
        lemma_parse_ser_user_list(b.users, r4);
        lemma_strip_lit_concat("]}"@, Seq::<char>::empty());
        assert(BackupView { device_id: b.device_id, users: b.users } =~= b);
    }
}

} // verus!
