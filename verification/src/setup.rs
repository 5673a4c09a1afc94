//! Where `kwaainet setup --get-deps` fetches the p2p daemon from.

use vstd::prelude::*;

use crate::fmt::{push_all, push_lit};
use crate::parse::eq_lit;
use crate::text::{chars_of, string_of};

verus! {

/// The release target for an operating system and CPU architecture, as Rust
/// names them; `None` for platforms without a release build.
pub open spec fn target_triple_spec(os: Seq<char>, arch: Seq<char>) -> Option<Seq<char>> {
    if os == "macos"@ && arch == "aarch64"@ {
        Some("aarch64-apple-darwin"@)
    } else if os == "macos"@ && arch == "x86_64"@ {
        Some("x86_64-apple-darwin"@)
    } else if os == "linux"@ && arch == "x86_64"@ {
        Some("x86_64-unknown-linux-gnu"@)
    } else if os == "linux"@ && arch == "aarch64"@ {
        Some("aarch64-unknown-linux-gnu"@)
    } else if os == "windows"@ && arch == "x86_64"@ {
        Some("x86_64-pc-windows-msvc"@)
    } else {
        None
    }
}

/// Executable form of [`target_triple_spec`].
pub fn build_target_triple(os: &str, arch: &str) -> (r: Option<&'static str>)
    ensures
        match r {
            Some(t) => target_triple_spec(os@, arch@) == Some(t@),
            None => target_triple_spec(os@, arch@) is None,
        },
{
    let o = chars_of(os);
    let a = chars_of(arch);
    if eq_lit(&o, "macos") && eq_lit(&a, "aarch64") {
        Some("aarch64-apple-darwin")
    } else if eq_lit(&o, "macos") && eq_lit(&a, "x86_64") {
        Some("x86_64-apple-darwin")
    } else if eq_lit(&o, "linux") && eq_lit(&a, "x86_64") {
        Some("x86_64-unknown-linux-gnu")
    } else if eq_lit(&o, "linux") && eq_lit(&a, "aarch64") {
        Some("aarch64-unknown-linux-gnu")
    } else if eq_lit(&o, "windows") && eq_lit(&a, "x86_64") {
        Some("x86_64-pc-windows-msvc")
    } else {
        None
    }
}

/// The release archive for a target: a `.zip` on Windows, else `.tar.xz`.
pub open spec fn release_url_spec(target: Seq<char>, windows: bool) -> Seq<char> {
    "https://github.com/Kwaai-AI-Lab/KwaaiNet/releases/latest/download/kwaainet-"@ + target + (
    if windows {
        ".zip"@
    } else {
        ".tar.xz"@
    })
}

/// The download address of the release archive for `target`.
pub fn release_archive_url(target: &str, windows: bool) -> (r: String)
    ensures
        r@ == release_url_spec(target@, windows),
{
    let mut s = chars_of("https://github.com/Kwaai-AI-Lab/KwaaiNet/releases/latest/download/kwaainet-");
    push_all(&mut s, &chars_of(target));
    if windows {
        push_lit(&mut s, ".zip");
    } else {
        push_lit(&mut s, ".tar.xz");
    }
    string_of(&s)
}

/// The archive member holding the daemon: `kwaainet-{target}/{binary}`.
pub fn archive_member(target: &str, binary_name: &str) -> (r: String)
    ensures
        r@ == "kwaainet-"@ + target@ + "/"@ + binary_name@,
{
    let mut s = chars_of("kwaainet-");
    push_all(&mut s, &chars_of(target));
    push_lit(&mut s, "/");
    push_all(&mut s, &chars_of(binary_name));
    string_of(&s)
}

} // verus!
