//! Directory names that are never watched.

use vstd::prelude::*;
use vstd::utf8::{
    decode_utf8, decode_utf8_encode_utf8, encode_utf8, encode_utf8_decode_utf8,
    encode_utf8_valid_utf8, valid_utf8,
};
use vstd::string::*;

verus! {

/// Directories that should always be excluded from filesystem watching
/// to prevent memory leaks from large dependency and build directories.
/// This is especially important for PNPM node_modules with extensive symlink structures.
pub const EXCLUDED_DIRS: [&'static str; 7] = [
    "node_modules",
    ".pnpm",
    "target",
    "dist",
    "build",
    ".next",
    ".nuxt",
];

/// The excluded names, as texts.
pub open spec fn excluded_dirs() -> Seq<Seq<char>> {
    seq![
        "node_modules"@,
        ".pnpm"@,
        "target"@,
        "dist"@,
        "build"@,
        ".next"@,
        ".nuxt"@,
    ]
}

/// The text that the bytes of a file name spell, if they are valid UTF-8.
pub open spec fn name_text(name: Seq<u8>) -> Option<Seq<char>> {
    if valid_utf8(name) {
        Some(decode_utf8(name))
    } else {
        None
    }
}

/// Whether the bytes of a file name spell an excluded directory.
pub open spec fn excluded_name(name: Seq<u8>) -> bool {
    name_text(name) matches Some(text) && excluded_dirs().contains(text)
}

/// Whether the bytes are those of the text.
pub fn spells(name: &[u8], text: &str) -> (same: bool)
    ensures
        same == (name_text(name@) == Some(text@)),
{
    let bytes = text.as_bytes();
    proof {
        encode_utf8_valid_utf8(text@);
        encode_utf8_decode_utf8(text@);
        if valid_utf8(name@) {
            decode_utf8_encode_utf8(name@);
        }
    }
    if name.len() != bytes.len() {
        return false;
    }
    for i in 0..name.len()
        invariant
            name@.len() == bytes@.len(),
            forall|j: int| 0 <= j < i ==> name@[j] == bytes@[j],
            bytes@ == encode_utf8(text@),
            name_text(name@) == Some(text@) ==> name@ == bytes@,
    {
        if name[i] != bytes[i] {
            return false;
        }
    }
    assert(name@ == bytes@);
    true
}

/// Whether the bytes of a file name spell an excluded directory.
/// A name that is not UTF-8 spells none.
pub fn is_excluded_name(name: &[u8]) -> (excluded: bool)
    ensures
        excluded == excluded_name(name@),
{
    let dirs = EXCLUDED_DIRS;
    assert(dirs@.map_values(|dir: &str| dir@) == excluded_dirs());
    for i in 0..dirs.len()
        invariant
            dirs@.map_values(|dir: &str| dir@) == excluded_dirs(),
            dirs@.len() == excluded_dirs().len(),
            forall|j: int| 0 <= j < i ==> name_text(name@) != Some(#[trigger] excluded_dirs()[j]),
    {
        assert(dirs@.map_values(|dir: &str| dir@)[i as int] == dirs@[i as int]@);
        if spells(name, dirs[i]) {
            assert(excluded_dirs()[i as int] == dirs@[i as int]@);
            return true;
        }
    }
    false
}

/// Check if a directory name should be excluded from watching
pub fn is_excluded_dir(name: &str) -> (excluded: bool)
    ensures
        excluded == excluded_dirs().contains(name@),
{
    proof {
        encode_utf8_valid_utf8(name@);
        encode_utf8_decode_utf8(name@);
    }
    is_excluded_name(name.as_bytes())
}

/// A name spells the text that it encodes; a name that is not UTF-8 spells none.
pub proof fn names_spell_what_they_encode(name: Seq<u8>, text: Seq<char>)
    ensures
        name_text(name) == Some(text) <==> name == encode_utf8(text),
        name_text(name) is None <==> !valid_utf8(name),
{
    encode_utf8_valid_utf8(text);
    encode_utf8_decode_utf8(text);
    if valid_utf8(name) {
        decode_utf8_encode_utf8(name);
    }
}

/// The excluded names are those of the dependency and build directories, to the letter, and no
/// others.
pub proof fn only_these_names_are_excluded(name: Seq<u8>)
    ensures
        excluded_name(name) <==> {
            ||| name == encode_utf8("node_modules"@)
            ||| name == encode_utf8(".pnpm"@)
            ||| name == encode_utf8("target"@)
            ||| name == encode_utf8("dist"@)
            ||| name == encode_utf8("build"@)
            ||| name == encode_utf8(".next"@)
            ||| name == encode_utf8(".nuxt"@)
        },
        forall|text: Seq<char>| #[trigger]
            excluded_dirs().contains(text) <==> {
                ||| text == "node_modules"@
                ||| text == ".pnpm"@
                ||| text == "target"@
                ||| text == "dist"@
                ||| text == "build"@
                ||| text == ".next"@
                ||| text == ".nuxt"@
            },
{
    let dirs = excluded_dirs();
    assert(dirs[0] == "node_modules"@);
    assert(dirs[1] == ".pnpm"@);
    assert(dirs[2] == "target"@);
    assert(dirs[3] == "dist"@);
    assert(dirs[4] == "build"@);
    assert(dirs[5] == ".next"@);
    assert(dirs[6] == ".nuxt"@);
    names_spell_what_they_encode(name, "node_modules"@);
    names_spell_what_they_encode(name, ".pnpm"@);
    names_spell_what_they_encode(name, "target"@);
    names_spell_what_they_encode(name, "dist"@);
    names_spell_what_they_encode(name, "build"@);
    names_spell_what_they_encode(name, ".next"@);
    names_spell_what_they_encode(name, ".nuxt"@);
}

} // verus!
