//! The environment variables shown on the operating-system page.
use vstd::prelude::*;
use vstd::string::StringExecFns;
use vstd::utf8::{encode_utf8, is_char_boundary};

verus! {

/// The variables shown, in the order shown.
pub open spec fn env_keys_spec() -> Seq<Seq<char>> {
    seq![
        "PATH"@, "HOME"@, "USER"@, "SHELL"@, "TERM"@, "LANG"@, "LOCALE"@, "XDG_SESSION_TYPE"@,
        "XDG_CURRENT_DESKTOP"@, "DISPLAY"@, "WAYLAND_DISPLAY"@, "DBUS_SESSION_BUS_ADDRESS"@,
        "GTK_THEME"@, "QT_STYLE_OVERRIDE"@, "COMPUTERNAME"@, "USERPROFILE"@, "SYSTEMROOT"@,
        "WINDIR"@, "PROCESSOR_ARCHITECTURE"@, "TEMP"@, "TMP"@, "PATHEXT"@,
    ]
}

/// The names of the environment variables shown, in the order shown.
pub fn env_keys() -> (r: Vec<&'static str>)
    ensures
        r@.map_values(|s: &str| s@) == env_keys_spec(),
{
    let r = vec![
        "PATH", "HOME", "USER", "SHELL", "TERM", "LANG", "LOCALE", "XDG_SESSION_TYPE",
        "XDG_CURRENT_DESKTOP", "DISPLAY", "WAYLAND_DISPLAY", "DBUS_SESSION_BUS_ADDRESS",
        "GTK_THEME", "QT_STYLE_OVERRIDE", "COMPUTERNAME", "USERPROFILE", "SYSTEMROOT", "WINDIR",
        "PROCESSOR_ARCHITECTURE", "TEMP", "TMP", "PATHEXT",
    ];
    assert(r@.map_values(|s: &str| s@) =~= env_keys_spec());
    r
}

/// A variable's value as shown: values longer than 90 bytes are cut to their
/// first 90 bytes followed by `"..."`. The cut must fall between characters.
pub fn env_display(v: &str) -> (r: String)
    requires
        encode_utf8(v@).len() > 90 ==> is_char_boundary(encode_utf8(v@), 90),
    ensures
        encode_utf8(v@).len() <= 90 ==> r@ == v@,
        encode_utf8(v@).len() > 90 ==> exists|p: Seq<char>|
            #[trigger] encode_utf8(p) == encode_utf8(v@).take(90) && r@ == p + "..."@,
{
    let n = v.as_bytes().len();
    if n > 90 {
        let (a, _b) = v.split_at(90);
        let mut r = String::from_str(a);
        r.append("...");
        assert(encode_utf8(a@) == encode_utf8(v@).take(90));
        assert(r@ == a@ + "..."@);
        r
    } else {
        String::from_str(v)
    }
}

} // verus!
