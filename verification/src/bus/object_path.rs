//! Object paths of units, and the socket on which they are served.

use crate::paths;
use crate::paths::join;
use crate::text;
use crate::unit::inet;
use crate::unit::name;
use crate::unit::name::{NameView, UnitName};
use vstd::prelude::*;

verus! {

/// D-Bus service name we publish under.
pub const SERVICE_NAME: &'static str = "org.freedesktop.systemd1";

/// Object path of the manager.
pub const MANAGER_PATH: &'static str = "/org/freedesktop/systemd1";

/// Manager interface name.
pub const MANAGER_INTERFACE: &'static str = "org.freedesktop.systemd1.Manager";

/// Unit interface name.
pub const UNIT_INTERFACE: &'static str = "org.freedesktop.systemd1.Unit";

/// Service interface name.
pub const SERVICE_INTERFACE: &'static str = "org.freedesktop.systemd1.Service";

/// Object-path prefix for per-unit objects.
pub const UNIT_PATH_PREFIX: &'static str = "/org/freedesktop/systemd1/unit/";

/// Where the daemon listens.
pub open spec fn socket_path(runtime_dir: Option<Seq<char>>) -> Seq<char> {
    paths::joined(
        match runtime_dir {
            Some(d) => d,
            None => "/tmp"@,
        },
        "systeml/private"@,
    )
}

/// Default socket path for D-Bus connections, given `XDG_RUNTIME_DIR`.
pub fn default_socket_path(runtime_dir: &Option<String>) -> (r: String)
    ensures
        r@ == socket_path(text::opt_text(*runtime_dir)),
{
    match runtime_dir {
        Some(d) => join(d.as_str(), "systeml/private"),
        None => join("/tmp", "systeml/private"),
    }
}

// ---------------------------------------------------------------------
// Escaping
// ---------------------------------------------------------------------

/// The bytes that stand for themselves: letters, digits and `_`.
pub open spec fn is_plain(b: u8) -> bool {
    (48 <= b && b <= 57) || (65 <= b && b <= 90) || (97 <= b && b <= 122) || b == 95
}

/// One byte, escaped where it is not plain.
pub open spec fn escaped_byte(b: u8) -> Seq<char> {
    if is_plain(b) {
        seq![b as char]
    } else {
        seq!['_', inet::hex_char((b / 16) as nat), inet::hex_char((b % 16) as nat)]
    }
}

/// Bytes, each that is not plain as `_` and two hexadecimal digits.
pub open spec fn escaped(bs: Seq<u8>) -> Seq<char>
    decreases bs.len(),
{
    if bs.len() == 0 {
        seq![]
    } else {
        escaped_byte(bs[0]) + escaped(bs.skip(1))
    }
}

/// A text, escaped by its bytes.
pub open spec fn escaped_text(s: Seq<char>) -> Seq<char> {
    escaped(vstd::utf8::encode_utf8(s))
}

fn hex_digit(d: u8) -> (r: char)
    requires
        d < 16,
    ensures
        r == inet::hex_char(d as nat),
{
    let b: u8 = if d < 10 {
        48 + d
    } else {
        87 + d
    };
    b as char
}

/// systemd's `bus_path_escape` algorithm.
pub fn encode_path_component(s: &str) -> (r: String)
    ensures
        r@ == escaped_text(s@),
{
    let bs = s.as_bytes();
    let ghost all = bs@;
    let mut out = String::new();
    let mut i: usize = 0;
    proof {
        assert(out@ =~= seq![]);
        assert(all.skip(0) =~= all);
        assert(out@ + escaped(all) =~= escaped(all));
    }
    while i < bs.len()
        invariant
            i <= bs.len(),
            all == bs@,
            out@ + escaped(all.skip(i as int)) == escaped(all),
        decreases bs.len() - i,
    {
        let b = bs[i];
        let ghost before = out@;
        proof {
            assert(all.skip(i as int)[0] == b);
            assert(all.skip(i as int).skip(1) =~= all.skip(i + 1));
        }
        if (48 <= b && b <= 57) || (65 <= b && b <= 90) || (97 <= b && b <= 122) || b == 95 {
            out.push(b as char);
        } else {
            out.push('_');
            out.push(hex_digit(b / 16));
            out.push(hex_digit(b % 16));
        }
        proof {
            assert(out@ =~= before + escaped_byte(b));
            assert(out@ + escaped(all.skip(i + 1)) =~= before + (escaped_byte(b) + escaped(
                all.skip(i + 1),
            )));
        }
        i = i + 1;
    }
    proof {
        assert(all.skip(all.len() as int) =~= seq![]);
        assert(out@ + escaped(all.skip(all.len() as int)) =~= out@);
    }
    out
}

// ---------------------------------------------------------------------
// Object paths
// ---------------------------------------------------------------------

/// The characters of an object path.
pub open spec fn is_path_char(c: char) -> bool {
    text::is_letter(c) || text::is_digit(c) || c == '_' || c == '/'
}

/// Whether a text is an object path: it begins with a slash, does not end with
/// one unless it is the root, has no two slashes in a row, and no character
/// but letters, digits, `_` and slashes.
pub open spec fn is_object_path(s: Seq<char>) -> bool {
    &&& s.len() > 0
    &&& s[0] == '/'
    &&& s.len() > 1 ==> s.last() != '/'
    &&& forall|i: int| 0 <= i < s.len() ==> is_path_char(#[trigger] s[i])
    &&& forall|i: int| 1 <= i < s.len() ==> !(#[trigger] s[i] == '/' && s[i - 1] == '/')
}

/// `zbus::zvariant::OwnedObjectPath::try_from` on a text: it takes the text
/// just where it is an object path, and keeps it as it is.
#[verifier::external_body]
fn checked_object_path(path: &str) -> (r: Option<String>)
    ensures
        match r {
            Some(s) => is_object_path(path@) && s@ == path@,
            None => !is_object_path(path@),
        },
{
    zbus::zvariant::OwnedObjectPath::try_from(path).ok().map(|p| p.as_str().to_owned())
}

/// The object path of a unit.
pub open spec fn unit_path(n: NameView) -> Seq<char> {
    UNIT_PATH_PREFIX@ + escaped_text(name::name_text(n))
}

proof fn lemma_escaped_chars(bs: Seq<u8>)
    ensures
        forall|i: int|
            0 <= i < escaped(bs).len() ==> is_path_char(#[trigger] escaped(bs)[i]) && escaped(bs)[i]
                != '/',
        bs.len() > 0 ==> escaped(bs).len() > 0,
    decreases bs.len(),
{
    if bs.len() > 0 {
        lemma_escaped_chars(bs.skip(1));
        let a = escaped_byte(bs[0]);
        let b = escaped(bs.skip(1));
        assert forall|i: int| 0 <= i < escaped(bs).len() implies is_path_char(
            #[trigger] escaped(bs)[i],
        ) && escaped(bs)[i] != '/' by {
            if i < a.len() {
                assert(escaped(bs)[i] == a[i]);
            } else {
                assert(escaped(bs)[i] == b[i - a.len()]);
            }
        }
    }
}

/// The object path of a unit is one, whatever the unit is called.
pub proof fn unit_paths_are_object_paths(n: NameView)
    ensures
        is_object_path(unit_path(n)),
{
    let file = name::name_text(n);
    name::lemma_suffix_shape(n.kind);
    assert(file.len() > 0);
    let bs = vstd::utf8::encode_utf8(file);
    assert(bs.len() > 0);
    lemma_escaped_chars(bs);
    let e = escaped(bs);
    let p = UNIT_PATH_PREFIX@;
    let s = unit_path(n);
    reveal_strlit("/org/freedesktop/systemd1/unit/");
    assert(p.len() == 31);
    assert forall|i: int| 0 <= i < s.len() implies is_path_char(#[trigger] s[i]) by {
        if i < p.len() {
            assert(s[i] == p[i]);
        } else {
            assert(s[i] == e[i - p.len()]);
        }
    }
    assert forall|i: int| 1 <= i < s.len() implies !(#[trigger] s[i] == '/' && s[i - 1] == '/') by {
        if i < p.len() {
            assert(s[i] == p[i] && s[i - 1] == p[i - 1]);
        } else {
            assert(s[i] == e[i - p.len()]);
        }
    }
    assert(s.last() == e[e.len() - 1]);
    assert(s[0] == p[0]);
}

/// Encode a unit name into the systemd-canonical D-Bus object path.
///
/// Every byte that is not in `[A-Za-z0-9_]` is replaced with `_<two-hex>`. So
/// `foo.service` becomes `foo_2eservice` and `getty@tty1.service` becomes
/// `getty_40tty1_2eservice`. The path returned has the [`UNIT_PATH_PREFIX`]
/// prepended.
pub fn unit_object_path(n: &UnitName) -> (r: String)
    ensures
        r@ == unit_path(n@),
        is_object_path(r@),
{
    let mut path = UNIT_PATH_PREFIX.to_owned();
    path.append(encode_path_component(n.filename().as_str()).as_str());
    proof {
        unit_paths_are_object_paths(n@);
    }
    match checked_object_path(path.as_str()) {
        Some(p) => p,
        None => path,
    }
}

// ---------------------------------------------------------------------
// Reading back
// ---------------------------------------------------------------------

/// The value of a lower-case hexadecimal digit.
pub open spec fn hex_digit_value(c: char) -> u8 {
    if c as u32 <= 57 {
        (c as u32 - 48) as u8
    } else {
        (c as u32 - 87) as u8
    }
}

/// The bytes of an escaped text.
pub open spec fn unescaped(s: Seq<char>) -> Seq<u8>
    decreases s.len(),
{
    if s.len() == 0 {
        seq![]
    } else if s[0] == '_' && s.len() >= 3 {
        seq![(hex_digit_value(s[1]) * 16 + hex_digit_value(s[2])) as u8] + unescaped(s.skip(3))
    } else {
        seq![s[0] as u8] + unescaped(s.skip(1))
    }
}

/// Escaping loses nothing of bytes without `_`: they read back. (`_` itself is
/// not escaped, so a text with it may look like another one escaped.)
pub proof fn escaping_reads_back(bs: Seq<u8>)
    requires
        !bs.contains(95),
    ensures
        unescaped(escaped(bs)) == bs,
    decreases bs.len(),
{
    if bs.len() > 0 {
        let b = bs[0];
        let rest = bs.skip(1);
        assert forall|i: int| 0 <= i < rest.len() implies rest[i] != 95 by {
            assert(bs[i + 1] == rest[i]);
        }
        escaping_reads_back(rest);
        let e = escaped(bs);
        let a = escaped_byte(b);
        assert(b != 95);
        if is_plain(b) {
            assert(e[0] == b as char);
            assert(b as char != '_');
            assert(e.skip(1) =~= escaped(rest));
        } else {
            assert(e[0] == '_');
            assert(e[1] == a[1] && e[2] == a[2]);
            assert(e.skip(3) =~= escaped(rest));
            assert(hex_digit_value(e[1]) == b / 16);
            assert(hex_digit_value(e[2]) == b % 16);
        }
        assert(seq![b] + rest =~= bs);
    } else {
        assert(escaped(bs) =~= seq![]);
        assert(unescaped(escaped(bs)) =~= bs);
    }
}

} // verus!
