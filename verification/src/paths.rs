//! Where the icons and the socket are kept. A file's path is the bytes that name it.

use vstd::prelude::*;
use vstd::utf8::{
    encode_scalar, encode_utf8, leading_byte_width_2, leading_byte_width_3, leading_byte_width_4,
};

use crate::number::{decimal, is_digit, lemma_decimal, push_decimal};
use crate::text::chars_of;

verus! {

/// A path taken from a directory: an absolute one stands alone; a relative one follows a
/// slash, which is not added to a directory that ends in one or is empty.
pub open spec fn joined(base: Seq<u8>, path: Seq<u8>) -> Seq<u8> {
    if absolute(path) {
        path
    } else if base.len() == 0 || base.last() == 0x2f {
        base + path
    } else {
        base.push(0x2f) + path
    }
}

/// Whether a path starts at the root.
pub open spec fn absolute(path: Seq<u8>) -> bool {
    path.len() > 0 && path[0] == 0x2f
}

/// Tells whether a path starts at the root.
pub fn is_absolute(path: &Vec<u8>) -> (r: bool)
    ensures
        r == absolute(path@),
{
    path.len() > 0 && path[0] == 0x2f
}

/// Takes a path from a directory.
pub fn join(base: &[u8], path: &[u8]) -> (r: Vec<u8>)
    ensures
        r@ == joined(base@, path@),
{
    let mut out: Vec<u8> = Vec::new();
    if path.len() == 0 || path[0] != 0x2f {
        out.extend_from_slice(base);
        assert(out@ =~= base@);
        if base.len() > 0 && base[base.len() - 1] != 0x2f {
            out.push(0x2f);
        }
    }
    let ghost before = out@;
    out.extend_from_slice(path);
    assert(out@ =~= before + path@);
    out
}

/// The directory of the session's runtime files: the one that the session names, or `/tmp`.
pub open spec fn runtime_text(runtime: Option<String>) -> Seq<char> {
    match runtime {
        Some(dir) => dir@,
        None => "/tmp"@,
    }
}

/// The directory of the session's runtime files.
pub fn runtime_dir(runtime: &Option<String>) -> (r: String)
    ensures
        r@ == runtime_text(*runtime),
{
    match runtime {
        Some(dir) => dir.clone(),
        None => "/tmp".to_owned(),
    }
}

pub open spec fn icon_dir_path(runtime: Option<String>) -> Seq<u8> {
    joined(encode_utf8(runtime_text(runtime)), encode_utf8("ewwii_tray"@))
}

/// The directory that icons are saved in.
pub fn icon_dir(runtime: &Option<String>) -> (r: Vec<u8>)
    ensures
        r@ == icon_dir_path(*runtime),
{
    join(runtime_dir(runtime).as_str().as_bytes(), "ewwii_tray".as_bytes())
}

pub open spec fn icon_file_path(runtime: Option<String>, id: u32) -> Seq<u8> {
    joined(icon_dir_path(runtime), encode_utf8(decimal(id as nat) + ".png"@))
}

/// The file that a tray's icon is saved in.
pub fn icon_file(runtime: &Option<String>, id: u32) -> (r: Vec<u8>)
    ensures
        r@ == icon_file_path(*runtime, id),
{
    let mut name = String::new();
    push_decimal(&mut name, id as u64);
    name.append(".png");
    assert(name@ =~= decimal(id as nat) + ".png"@);
    join(icon_dir(runtime).as_slice(), name.as_str().as_bytes())
}

pub open spec fn listening_path(runtime: Option<String>) -> Seq<u8> {
    joined(encode_utf8(runtime_text(runtime)), encode_utf8("wlr-trayd.sock"@))
}

/// The socket that the daemon listens on.
pub fn socket_path(runtime: &Option<String>) -> (r: Vec<u8>)
    ensures
        r@ == listening_path(*runtime),
{
    join(runtime_dir(runtime).as_str().as_bytes(), "wlr-trayd.sock".as_bytes())
}

/// A name taken from a directory, in text: behind a slash, which is not added to a directory
/// that ends in one or is empty.
pub open spec fn in_dir(dir: Seq<char>, name: Seq<char>) -> Seq<char> {
    if dir.len() == 0 || dir.last() == '/' {
        dir + name
    } else {
        dir + "/"@ + name
    }
}

/// The socket that the daemon's clients connect to, in text: behind the runtime directory and
/// a slash, or by itself where that directory is named by nothing at all.
pub open spec fn client_path(runtime: Option<String>) -> Seq<char> {
    if runtime_text(runtime).len() == 0 {
        "wlr-trayd.sock"@
    } else {
        runtime_text(runtime) + "/wlr-trayd.sock"@
    }
}

/// A path with a single slash in place of each row of slashes.
pub open spec fn single_slashes(path: Seq<u8>) -> Seq<u8>
    decreases path.len(),
{
    if path.len() == 0 {
        path
    } else if path.len() > 1 && path.last() == 0x2f && path[path.len() - 2] == 0x2f {
        single_slashes(path.drop_last())
    } else {
        single_slashes(path.drop_last()).push(path.last())
    }
}

/// Whether two paths name the same file: a row of slashes is as good as one.
pub open spec fn same_file(a: Seq<u8>, b: Seq<u8>) -> bool {
    single_slashes(a) == single_slashes(b)
}

/// The socket that the daemon's clients connect to: the one that the daemon listens on.
pub fn client_socket_path(runtime: &Option<String>) -> (r: String)
    ensures
        r@ == client_path(*runtime),
        same_file(encode_utf8(r@), listening_path(*runtime)),
{
    proof {
        law_clients_find_the_socket(*runtime);
    }
    let mut path = runtime_dir(runtime);
    if chars_of(path.as_str()).len() == 0 {
        return "wlr-trayd.sock".to_owned();
    }
    path.append("/wlr-trayd.sock");
    path
}

/// Encoding goes through a text from left to right.
pub proof fn lemma_encode_concat(a: Seq<char>, b: Seq<char>)
    ensures
        encode_utf8(a + b) == encode_utf8(a) + encode_utf8(b),
    decreases a.len(),
{
    if a.len() == 0 {
        assert(a + b =~= b);
        assert(encode_utf8(a) + encode_utf8(b) =~= encode_utf8(b));
    } else {
        lemma_encode_concat(a.drop_first(), b);
        assert((a + b).drop_first() =~= a.drop_first() + b);
        assert(encode_utf8(a + b) =~= encode_utf8(a) + encode_utf8(b));
    }
}

/// Only a slash is encoded with the byte of a slash at its end.
proof fn lemma_scalar_ends_in_slash(c: char)
    ensures
        encode_scalar(c as u32).len() > 0,
        encode_scalar(c as u32).last() == 0x2f <==> c == '/',
{
    let v = c as u32;
    assert(v <= 0x7f ==> ((v & 0x7f) as u8 == 0x2f <==> v == 0x2f)) by (bit_vector);
    assert((v & 0x7f) as u8 <= 0x7f) by (bit_vector);
    assert(0x80 | ((v & 0x3f) as u8) != 0x2f) by (bit_vector);
}

/// A text ends in a slash where its bytes do.
proof fn lemma_ends_in_slash(dir: Seq<char>)
    requires
        dir.len() > 0,
    ensures
        encode_utf8(dir).len() > 0,
        encode_utf8(dir).last() == 0x2f <==> dir.last() == '/',
{
    assert(dir =~= dir.drop_last() + seq![dir.last()]);
    lemma_encode_concat(dir.drop_last(), seq![dir.last()]);
    lemma_encode_one(dir.last());
    lemma_scalar_ends_in_slash(dir.last());
    assert(encode_utf8(dir).last() == encode_scalar(dir.last() as u32).last());
}

/// A slash between two texts is the byte of a slash between their bytes.
proof fn lemma_encode_slash(dir: Seq<char>, name: Seq<char>)
    ensures
        encode_utf8(dir + "/"@ + name) == encode_utf8(dir).push(0x2f) + encode_utf8(name),
{
    reveal_strlit("/");
    assert("/"@ =~= seq!['/']);
    lemma_encode_one('/');
    assert(encode_scalar('/' as u32) =~= seq![0x2fu8]) by {
        assert((0x2fu32 & 0x7f) as u8 == 0x2f) by (bit_vector);
    }
    lemma_encode_concat(dir, "/"@);
    lemma_encode_concat(dir + "/"@, name);
    assert(encode_utf8(dir) + seq![0x2fu8] =~= encode_utf8(dir).push(0x2f));
}

/// Taking a relative path from a directory is the same in text and in bytes.
proof fn lemma_joined_texts(dir: Seq<char>, name: Seq<char>)
    requires
        encode_utf8(name).len() > 0,
        encode_utf8(name)[0] != 0x2f,
    ensures
        joined(encode_utf8(dir), encode_utf8(name)) == encode_utf8(in_dir(dir, name)),
{
    lemma_encode_concat(dir, name);
    if dir.len() == 0 {
        assert(encode_utf8(dir) =~= Seq::<u8>::empty());
    } else {
        lemma_ends_in_slash(dir);
        lemma_encode_slash(dir, name);
    }
}

/// What begins with an ASCII character other than a slash is encoded with another first byte.
pub proof fn lemma_relative(name: Seq<char>)
    requires
        name.len() > 0,
        name[0] as u32 <= 0x7f,
        name[0] != '/',
    ensures
        encode_utf8(name).len() > 0,
        encode_utf8(name)[0] != 0x2f,
{
    assert(encode_scalar(name[0] as u32).len() == 1);
    lemma_scalar_ends_in_slash(name[0]);
    assert(encode_utf8(name) =~= encode_scalar(name[0] as u32) + encode_utf8(name.drop_first()));
}

/// What begins with a slash is encoded with the byte of a slash first.
pub proof fn lemma_absolute(path: Seq<char>)
    requires
        path.len() > 0,
        path[0] == '/',
    ensures
        absolute(encode_utf8(path)),
{
    assert(encode_scalar('/' as u32) =~= seq![0x2fu8]) by {
        assert((0x2fu32 & 0x7f) as u8 == 0x2f) by (bit_vector);
    }
    assert(encode_utf8(path) =~= encode_scalar(path[0] as u32) + encode_utf8(path.drop_first()));
}

/// The bytes of a text start at the root where the text does.
pub proof fn lemma_absolute_text(path: Seq<char>)
    ensures
        absolute(encode_utf8(path)) <==> path.len() > 0 && path[0] == '/',
{
    if path.len() > 0 {
        if path[0] == '/' {
            lemma_absolute(path);
        } else {
            lemma_first_byte(path[0]);
            assert(encode_utf8(path)[0] == encode_scalar(path[0] as u32)[0]);
        }
    }
}

/// Only a slash is encoded with the byte of a slash first.
proof fn lemma_first_byte(c: char)
    ensures
        encode_scalar(c as u32).len() > 0,
        encode_scalar(c as u32)[0] == 0x2f ==> c == '/',
{
    let v = c as u32;
    assert(v <= 0x7f ==> ((v & 0x7f) as u8 == 0x2f <==> v == 0x2f)) by (bit_vector);
    assert(leading_byte_width_2(v) >= 0x80) by (bit_vector);
    assert(leading_byte_width_3(v) >= 0x80) by (bit_vector);
    assert(leading_byte_width_4(v) >= 0x80) by (bit_vector);
}

/// A slash behind a slash makes no difference, whatever follows it.
proof fn lemma_second_slash(dir: Seq<u8>, rest: Seq<u8>)
    requires
        dir.len() > 0,
        dir.last() == 0x2f,
    ensures
        same_file(dir.push(0x2f) + rest, dir + rest),
    decreases rest.len(),
{
    let double = dir.push(0x2f) + rest;
    let single = dir + rest;
    if rest.len() == 0 {
        assert(double =~= dir.push(0x2f));
        assert(double.drop_last() =~= dir);
        assert(single =~= dir);
    } else {
        lemma_second_slash(dir, rest.drop_last());
        assert(double.drop_last() =~= dir.push(0x2f) + rest.drop_last());
        assert(single.drop_last() =~= dir + rest.drop_last());
        assert(double[double.len() - 2] == single[single.len() - 2]);
    }
}

/// The daemon listens where its clients connect, whatever the session names as its runtime
/// directory.
pub proof fn law_clients_find_the_socket(runtime: Option<String>)
    ensures
        same_file(encode_utf8(client_path(runtime)), listening_path(runtime)),
{
    let dir = runtime_text(runtime);
    let name = "wlr-trayd.sock"@;
    reveal_strlit("wlr-trayd.sock");
    reveal_strlit("/wlr-trayd.sock");
    reveal_strlit("/");
    lemma_relative(name);
    lemma_joined_texts(dir, name);
    assert("/wlr-trayd.sock"@ =~= "/"@ + name);
    if dir.len() == 0 {
        assert(in_dir(dir, name) =~= name);
    } else if dir.last() == '/' {
        lemma_encode_slash(dir, name);
        lemma_encode_concat(dir, name);
        lemma_ends_in_slash(dir);
        lemma_second_slash(encode_utf8(dir), encode_utf8(name));
        assert(dir + "/wlr-trayd.sock"@ =~= dir + "/"@ + name);
    } else {
        assert(dir + "/wlr-trayd.sock"@ =~= in_dir(dir, name));
    }
}

/// The icon of a tray is saved as `ewwii_tray/<id>.png` in the runtime directory.
pub proof fn law_icons_are_saved_by_id(runtime: Option<String>, id: u32)
    ensures
        icon_file_path(runtime, id) == encode_utf8(
            in_dir(runtime_text(runtime), "ewwii_tray/"@ + decimal(id as nat) + ".png"@),
        ),
{
    let dir = runtime_text(runtime);
    let sub = "ewwii_tray"@;
    let name = decimal(id as nat) + ".png"@;
    reveal_strlit("ewwii_tray");
    reveal_strlit("ewwii_tray/");
    reveal_strlit("/");
    lemma_relative(sub);
    lemma_joined_texts(dir, sub);
    let icons = in_dir(dir, sub);
    assert(icons.last() == sub.last());
    lemma_name_is_relative(id);
    lemma_joined_texts(icons, name);
    assert("ewwii_tray/"@ =~= sub + "/"@);
    assert(in_dir(icons, name) =~= in_dir(dir, "ewwii_tray/"@ + decimal(id as nat) + ".png"@));
}

/// One character is encoded by itself.
pub proof fn lemma_encode_one(c: char)
    ensures
        encode_utf8(seq![c]) == encode_scalar(c as u32),
{
    assert(seq![c].drop_first() =~= Seq::<char>::empty());
    assert(encode_utf8(Seq::<char>::empty()) =~= Seq::<u8>::empty());
    assert(encode_utf8(seq![c]) =~= encode_scalar(c as u32));
}

/// Every tray has a file of its own for its icon.
pub proof fn law_icon_files_differ(runtime: Option<String>, a: u32, b: u32)
    requires
        icon_file_path(runtime, a) == icon_file_path(runtime, b),
    ensures
        a == b,
{
    let dir = icon_dir_path(runtime);
    let name_a = decimal(a as nat) + ".png"@;
    let name_b = decimal(b as nat) + ".png"@;
    lemma_name_is_relative(a);
    lemma_name_is_relative(b);
    let base = if dir.len() == 0 || dir.last() == 0x2f {
        dir
    } else {
        dir.push(0x2f)
    };
    let path = base + encode_utf8(name_a);
    assert(path == base + encode_utf8(name_b));
    assert(path.skip(base.len() as int) =~= encode_utf8(name_a));
    assert((base + encode_utf8(name_b)).skip(base.len() as int) =~= encode_utf8(name_b));
    vstd::utf8::encode_utf8_decode_utf8(name_a);
    vstd::utf8::encode_utf8_decode_utf8(name_b);
    assert(name_a == name_b);
    reveal_strlit(".png");
    assert(decimal(a as nat) =~= name_a.take(name_a.len() - 4));
    assert(decimal(b as nat) =~= name_b.take(name_b.len() - 4));
    lemma_decimal(a as nat);
    lemma_decimal(b as nat);
}

/// The name of an icon's file is a relative path.
proof fn lemma_name_is_relative(id: u32)
    ensures
        encode_utf8(decimal(id as nat) + ".png"@).len() > 0,
        encode_utf8(decimal(id as nat) + ".png"@)[0] != 0x2f,
{
    let name = decimal(id as nat) + ".png"@;
    lemma_decimal(id as nat);
    assert(is_digit(decimal(id as nat)[0]));
    assert(name[0] == decimal(id as nat)[0]);
    lemma_relative(name);
}

/// A relative path stands behind its directory with one slash between them, whether or not
/// the directory ends in one; an absolute one stands alone.
pub proof fn law_paths_are_joined_by_one_slash(dir: Seq<u8>, path: Seq<u8>)
    ensures
        joined(dir, seq![0x2fu8] + path) == seq![0x2fu8] + path,
        path.len() == 0 || path[0] != 0x2f ==> {
            &&& joined(dir.push(0x2f), path) == dir + seq![0x2fu8] + path
            &&& dir.len() > 0 && dir.last() != 0x2f ==> joined(dir, path) == dir + seq![0x2fu8]
                + path
            &&& joined(Seq::<u8>::empty(), path) == path
        },
{
    assert((seq![0x2fu8] + path)[0] == 0x2f);
    assert(dir.push(0x2f) + path =~= dir + seq![0x2fu8] + path);
    assert(Seq::<u8>::empty() + path =~= path);
}

/// The daemon's files are in the runtime directory of the session, or in `/tmp` where the
/// session names none: the socket `wlr-trayd.sock`, and the icons in `ewwii_tray`, each under
/// the id of its tray. One slash stands behind the directory, whether or not it is named with
/// one.
pub proof fn law_files_of_the_session(dir: String, id: u32)
    ensures
        listening_path(None) == encode_utf8("/tmp/wlr-trayd.sock"@),
        icon_dir_path(None) == encode_utf8("/tmp/ewwii_tray"@),
        icon_file_path(None, id) == encode_utf8("/tmp/ewwii_tray/"@ + decimal(id as nat) + ".png"@),
        dir@.len() > 0 && dir@.last() != '/' ==> {
            &&& listening_path(Some(dir)) == encode_utf8(dir@ + "/wlr-trayd.sock"@)
            &&& icon_dir_path(Some(dir)) == encode_utf8(dir@ + "/ewwii_tray"@)
            &&& icon_file_path(Some(dir), id) == encode_utf8(
                dir@ + "/ewwii_tray/"@ + decimal(id as nat) + ".png"@,
            )
        },
        dir@.len() == 0 || dir@.last() == '/' ==> {
            &&& listening_path(Some(dir)) == encode_utf8(dir@ + "wlr-trayd.sock"@)
            &&& icon_dir_path(Some(dir)) == encode_utf8(dir@ + "ewwii_tray"@)
            &&& icon_file_path(Some(dir), id) == encode_utf8(
                dir@ + "ewwii_tray/"@ + decimal(id as nat) + ".png"@,
            )
        },
{
    reveal_strlit("/tmp");
    reveal_strlit("/");
    reveal_strlit("wlr-trayd.sock");
    reveal_strlit("/wlr-trayd.sock");
    reveal_strlit("/tmp/wlr-trayd.sock");
    reveal_strlit("ewwii_tray");
    reveal_strlit("/ewwii_tray");
    reveal_strlit("/tmp/ewwii_tray");
    reveal_strlit("ewwii_tray/");
    reveal_strlit("/ewwii_tray/");
    reveal_strlit("/tmp/ewwii_tray/");
    let named = dir@;
    let tmp = "/tmp"@;
    let number = decimal(id as nat);
    lemma_relative("wlr-trayd.sock"@);
    lemma_relative("ewwii_tray"@);
    lemma_joined_texts(named, "wlr-trayd.sock"@);
    lemma_joined_texts(tmp, "wlr-trayd.sock"@);
    lemma_joined_texts(named, "ewwii_tray"@);
    lemma_joined_texts(tmp, "ewwii_tray"@);
    law_icons_are_saved_by_id(None, id);
    law_icons_are_saved_by_id(Some(dir), id);
    assert(in_dir(tmp, "wlr-trayd.sock"@) =~= "/tmp/wlr-trayd.sock"@);
    assert(in_dir(tmp, "ewwii_tray"@) =~= "/tmp/ewwii_tray"@);
    assert(in_dir(tmp, "ewwii_tray/"@ + number + ".png"@) =~= "/tmp/ewwii_tray/"@ + number
        + ".png"@);
    if named.len() > 0 && named.last() != '/' {
        assert(in_dir(named, "wlr-trayd.sock"@) =~= named + "/wlr-trayd.sock"@);
        assert(in_dir(named, "ewwii_tray"@) =~= named + "/ewwii_tray"@);
        assert(in_dir(named, "ewwii_tray/"@ + number + ".png"@) =~= named + "/ewwii_tray/"@
            + number + ".png"@);
    } else {
        assert(in_dir(named, "ewwii_tray/"@ + number + ".png"@) =~= named + "ewwii_tray/"@
            + number + ".png"@);
    }
}

/// The clients' path of the socket: behind the runtime directory and a slash, behind `/tmp`
/// where the session names no directory, and by itself where it names one by nothing at all.
pub proof fn law_path_of_the_clients(dir: String)
    ensures
        client_path(None) == "/tmp/wlr-trayd.sock"@,
        dir@.len() > 0 ==> client_path(Some(dir)) == dir@ + "/wlr-trayd.sock"@,
        dir@.len() == 0 ==> client_path(Some(dir)) == "wlr-trayd.sock"@,
{
    reveal_strlit("/tmp");
    reveal_strlit("/wlr-trayd.sock");
    reveal_strlit("/tmp/wlr-trayd.sock");
    assert("/tmp"@ + "/wlr-trayd.sock"@ =~= "/tmp/wlr-trayd.sock"@);
}

} // verus!
