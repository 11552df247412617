//! Attachments: a file travels in chunks, each compressed (zstd) and then
//! sealed with a one-time key, so neither side holds the whole file in memory.
//! Also the names that local copies, stickers and cached avatars get, and the
//! MIME type guessed from an extension.

use vstd::prelude::*;
use crate::crypto::{bytes_result, decrypt, encrypt, encrypt_failed_msg, is_sealed, opened, seal_fits};
use crate::storage::{alnum_only, ascii_alnum_of, avatar_name, file_name, path_file_name};
use crate::text::{
    chars_of, is_alnum, is_alphanumeric, is_ws, lower, owned, push_char, push_str, str_eq, string_of,
    to_lower, trim, trim_str, decimal, decimal_string,
};

verus! {

broadcast use vstd::seq_lib::group_seq_properties;

// ---------------------------------------------------------------------------
// compression
// ---------------------------------------------------------------------------

/// The zstd frame that `zstd::encode_all(data, level)` writes; `None` when the
/// encoder reports an error.
pub uninterp spec fn zstd_frame(data: Seq<u8>, level: int) -> Option<Seq<u8>>;

/// What `zstd::decode_all` reads from `data`; `None` when it is not a valid
/// zstd stream.
pub uninterp spec fn zstd_decoded(data: Seq<u8>) -> Option<Seq<u8>>;

/// `zstd::encode_all(data, level)`; the error is the library's message.
#[verifier::external_body]
fn zstd_encode(data: &[u8], level: i32) -> (r: Result<Vec<u8>, String>)
    ensures
        match r {
            Ok(c) => zstd_frame(data@, level as int) == Some(c@),
            Err(_) => zstd_frame(data@, level as int) is None,
        },
{
    zstd::encode_all(data, level).map_err(|e| e.to_string())
}

/// `zstd::decode_all(data)`: a frame that the encoder wrote decodes to the
/// data it was written from. The error is the library's message.
#[verifier::external_body]
fn zstd_decode(data: &[u8]) -> (r: Result<Vec<u8>, String>)
    ensures
        match r {
            Ok(d) => zstd_decoded(data@) == Some(d@),
            Err(_) => zstd_decoded(data@) is None,
        },
        forall|d: Seq<u8>, level: int| #[trigger] zstd_frame(d, level) == Some(data@) ==> r is Ok
            && r->Ok_0@ == d,
{
    zstd::decode_all(data).map_err(|e| e.to_string())
}

pub open spec fn compress_error_prefix() -> Seq<char> {
    "falha ao comprimir: "@
}

pub open spec fn decompress_error_prefix() -> Seq<char> {
    "falha ao descomprimir: "@
}

/// Compresses `data` with zstd at the default level.
pub fn compress(data: &[u8]) -> (r: Result<Vec<u8>, String>)
    ensures
        match zstd_frame(data@, 0) {
            Some(c) => r matches Ok(v) && v@ == c,
            None => r matches Err(e) && compress_error_prefix().is_prefix_of(e@),
        },
{
    match zstd_encode(data, 0) {
        Ok(c) => Ok(c),
        Err(e) => {
            let mut msg = owned("falha ao comprimir: ");
            push_str(&mut msg, e.as_str());
            Err(msg)
        },
    }
}

/// Decompresses a zstd stream; what `compress` made comes back whole.
pub fn decompress(data: &[u8]) -> (r: Result<Vec<u8>, String>)
    ensures
        match zstd_decoded(data@) {
            Some(d) => r matches Ok(v) && v@ == d,
            None => r matches Err(e) && decompress_error_prefix().is_prefix_of(e@),
        },
        forall|d: Seq<u8>| #[trigger] zstd_frame(d, 0) == Some(data@) ==> r is Ok && r->Ok_0@ == d,
{
    match zstd_decode(data) {
        Ok(d) => Ok(d),
        Err(e) => {
            let mut msg = owned("falha ao descomprimir: ");
            push_str(&mut msg, e.as_str());
            Err(msg)
        },
    }
}

// ---------------------------------------------------------------------------
// chunks of a transfer
// ---------------------------------------------------------------------------

/// `frame` is the chunk `data`, compressed and then sealed under `key`.
pub open spec fn is_chunk_frame(key: Seq<u8>, data: Seq<u8>, frame: Seq<u8>) -> bool {
    exists|c: Seq<u8>| #[trigger] zstd_frame(data, 0) == Some(c) && is_sealed(key, c, frame)
}

/// Prepares one chunk of a file for the wire: compressed, then sealed.
pub fn seal_chunk(key: &[u8; 32], data: &[u8]) -> (r: Result<Vec<u8>, String>)
    ensures
        r matches Ok(f) ==> is_chunk_frame(key@, data@, f@),
        match zstd_frame(data@, 0) {
            None => r matches Err(e) && compress_error_prefix().is_prefix_of(e@),
            Some(c) => if seal_fits(c.len()) {
                r is Ok
            } else {
                r matches Err(e) && e@ == encrypt_failed_msg()
            },
        },
{
    let comp = match compress(data) {
        Ok(c) => c,
        Err(e) => return Err(e),
    };
    let r = encrypt(key, comp.as_slice());
    proof {
        if r is Ok {
            assert(zstd_frame(data@, 0) == Some(comp@));
        }
    }
    r
}

/// Reads one chunk from the wire: opened, then decompressed. A frame that
/// does not open under `key` (tampered, or sealed under another key) is
/// refused with the error of `decrypt`; one that opens but is not a zstd
/// frame, with the error of `decompress`. A frame that `seal_chunk` made
/// under the same key gives the chunk back.
pub fn open_chunk(key: &[u8; 32], frame: &[u8]) -> (r: Result<Vec<u8>, String>)
    ensures
        match opened(key@, frame@) {
            Err(e) => bytes_result(r) == Err::<Seq<u8>, Seq<char>>(e),
            Ok(c) => match zstd_decoded(c) {
                Some(d) => r matches Ok(v) && v@ == d,
                None => r matches Err(e) && decompress_error_prefix().is_prefix_of(e@),
            },
        },
        forall|d: Seq<u8>| #[trigger] is_chunk_frame(key@, d, frame@) ==> r is Ok && r->Ok_0@ == d,
{
    let comp = match decrypt(key, frame) {
        Ok(c) => c,
        Err(e) => return Err(e),
    };
    let r = decompress(comp.as_slice());
    proof {
        assert forall|d: Seq<u8>| #[trigger] is_chunk_frame(key@, d, frame@) implies r is Ok
            && r->Ok_0@ == d by {
            let c = choose|c: Seq<u8>| #[trigger] zstd_frame(d, 0) == Some(c) && is_sealed(
                key@,
                c,
                frame@,
            );
            assert(comp@ == c);
            assert(zstd_frame(d, 0) == Some(comp@));
        }
    }
    r
}

// ---------------------------------------------------------------------------
// names
// ---------------------------------------------------------------------------

/// Index of the last `c` in `s`, or -1.
pub open spec fn last_index_of(s: Seq<char>, c: char) -> int
    decreases s.len(),
{
    if s.len() == 0 {
        -1
    } else if s.last() == c {
        s.len() - 1
    } else {
        last_index_of(s.drop_last(), c)
    }
}

/// Index of the last path separator (`/` or `\`) in `s`, or -1.
pub open spec fn last_separator(s: Seq<char>) -> int
    decreases s.len(),
{
    if s.len() == 0 {
        -1
    } else if s.last() == '/' || s.last() == '\\' {
        s.len() - 1
    } else {
        last_separator(s.drop_last())
    }
}

proof fn lemma_last_index_bounds(s: Seq<char>, c: char)
    ensures
        -1 <= last_index_of(s, c) < s.len(),
        last_index_of(s, c) >= 0 ==> s[last_index_of(s, c)] == c,
    decreases s.len(),
{
    if s.len() > 0 && s.last() != c {
        lemma_last_index_bounds(s.drop_last(), c);
    }
}

proof fn lemma_last_separator_bounds(s: Seq<char>)
    ensures
        -1 <= last_separator(s) < s.len(),
    decreases s.len(),
{
    if s.len() > 0 && !(s.last() == '/' || s.last() == '\\') {
        lemma_last_separator_bounds(s.drop_last());
    }
}

fn after_last(cs: &Vec<char>, c: char) -> (r: usize)
    ensures
        r == last_index_of(cs@, c) + 1,
{
    let mut j: usize = cs.len();
    while j > 0 && cs[j - 1] != c
        invariant
            j <= cs.len(),
            last_index_of(cs@, c) == last_index_of(cs@.take(j as int), c),
        decreases j,
    {
        assert(cs@.take(j as int).drop_last() =~= cs@.take(j - 1));
        j -= 1;
    }
    if j == 0 {
        assert(cs@.take(0) =~= Seq::<char>::empty());
    } else {
        assert(cs@.take(j as int) =~= cs@.take(j as int));
    }
    j
}

fn after_last_sep(cs: &Vec<char>) -> (r: usize)
    ensures
        r == last_separator(cs@) + 1,
{
    let mut j: usize = cs.len();
    while j > 0 && cs[j - 1] != '/' && cs[j - 1] != '\\'
        invariant
            j <= cs.len(),
            last_separator(cs@) == last_separator(cs@.take(j as int)),
        decreases j,
    {
        assert(cs@.take(j as int).drop_last() =~= cs@.take(j - 1));
        j -= 1;
    }
    if j == 0 {
        assert(cs@.take(0) =~= Seq::<char>::empty());
    } else {
        assert(cs@.take(j as int) =~= cs@.take(j as int));
    }
    j
}

/// The extension of a file name: what follows its last dot (the whole name
/// when it has none), as `rsplit('.').next()` gives it.
pub open spec fn extension(name: Seq<char>) -> Seq<char> {
    name.skip(last_index_of(name, '.') + 1)
}

/// The last component of a path written with `/` or `\`, as
/// `rsplit(['/', '\\']).next()` gives it.
pub open spec fn base_name(path: Seq<char>) -> Seq<char> {
    path.skip(last_separator(path) + 1)
}

/// The MIME type of a (lower-case) extension; unknown ones are binary.
pub open spec fn mime_of_ext(e: Seq<char>) -> Seq<char> {
    if e == "png"@ {
        "image/png"@
    } else if e == "jpg"@ || e == "jpeg"@ {
        "image/jpeg"@
    } else if e == "gif"@ {
        "image/gif"@
    } else if e == "webp"@ {
        "image/webp"@
    } else if e == "svg"@ {
        "image/svg+xml"@
    } else if e == "pdf"@ {
        "application/pdf"@
    } else if e == "txt"@ || e == "md"@ {
        "text/plain"@
    } else if e == "mp4"@ {
        "video/mp4"@
    } else if e == "mp3"@ {
        "audio/mpeg"@
    } else if e == "zip"@ {
        "application/zip"@
    } else {
        "application/octet-stream"@
    }
}

/// A simple guess of the MIME type from the extension (for the UI's icon and
/// preview only).
pub fn guess_mime(filename: &str) -> (r: String)
    ensures
        r@ == mime_of_ext(lower(extension(filename@))),
{
    let cs = chars_of(filename);
    let start = after_last(&cs, '.');
    proof {
        lemma_last_index_bounds(filename@, '.');
    }
    let ext = string_of(&cs, start, cs.len());
    assert(ext@ =~= extension(filename@));
    let e = to_lower(ext.as_str());
    let e = e.as_str();
    let m = if str_eq(e, "png") {
        "image/png"
    } else if str_eq(e, "jpg") || str_eq(e, "jpeg") {
        "image/jpeg"
    } else if str_eq(e, "gif") {
        "image/gif"
    } else if str_eq(e, "webp") {
        "image/webp"
    } else if str_eq(e, "svg") {
        "image/svg+xml"
    } else if str_eq(e, "pdf") {
        "application/pdf"
    } else if str_eq(e, "txt") || str_eq(e, "md") {
        "text/plain"
    } else if str_eq(e, "mp4") {
        "video/mp4"
    } else if str_eq(e, "mp3") {
        "audio/mpeg"
    } else if str_eq(e, "zip") {
        "application/zip"
    } else {
        "application/octet-stream"
    };
    owned(m)
}

/// The last component of a path (`/` or `\` separated).
pub fn base_name_of(path: &str) -> (r: String)
    ensures
        r@ == base_name(path@),
{
    let cs = chars_of(path);
    let k = after_last_sep(&cs);
    proof {
        lemma_last_separator_bounds(path@);
    }
    let r = string_of(&cs, k, cs.len());
    assert(r@ =~= base_name(path@));
    r
}

/// Name of a local copy: `<millis>_<name>`, the name stripped of any folder.
pub open spec fn stamped_name(stamp: nat, path: Seq<char>) -> Seq<char> {
    decimal(stamp) + "_"@ + base_name(path)
}

/// The unique name under which an attachment (or a sticker) is kept.
pub fn stamped_file_name(stamp: u64, path: &str) -> (r: String)
    ensures
        r@ == stamped_name(stamp as nat, path@),
{
    let mut s = decimal_string(stamp);
    push_str(&mut s, "_");
    let b = base_name_of(path);
    push_str(&mut s, b.as_str());
    s
}

/// A sticker pack's folder name: letters, digits, spaces, `-` and `_` only,
/// trimmed; `geral` when nothing is left.
pub open spec fn pack_name(name: Seq<char>) -> Seq<char> {
    let kept = trim(name.filter(|c: char| is_alnum(c) || c == ' ' || c == '-' || c == '_'));
    if kept.len() == 0 {
        "geral"@
    } else {
        kept
    }
}

proof fn lemma_filter_keeps_all<A>(s: Seq<A>, pred: spec_fn(A) -> bool)
    requires
        forall|i: int| 0 <= i < s.len() ==> pred(#[trigger] s[i]),
    ensures
        s.filter(pred) == s,
    decreases s.len(),
{
    reveal(Seq::filter);
    if s.len() > 0 {
        let t = s.drop_last();
        assert forall|i: int| 0 <= i < t.len() implies pred(#[trigger] t[i]) by {
            assert(t[i] == s[i]);
        }
        lemma_filter_keeps_all(t, pred);
        assert(t.push(s.last()) =~= s);
    } else {
        assert(s =~= Seq::<A>::empty());
    }
}

/// A pack name made of letters and digits in the Unicode sense (accented and
/// other non-ASCII ones too; none of them white space) is its own folder
/// name: no letter or digit is dropped.
pub proof fn lemma_pack_name_keeps_letters_and_digits(name: Seq<char>)
    requires
        name.len() > 0,
        forall|i: int| 0 <= i < name.len() ==> is_alnum(#[trigger] name[i]) && !is_ws(name[i]),
    ensures
        pack_name(name) == name,
{
    let pred = |c: char| is_alnum(c) || c == ' ' || c == '-' || c == '_';
    lemma_filter_keeps_all(name, pred);
    crate::text::lemma_trim_padded(Seq::<char>::empty(), name, Seq::<char>::empty());
    assert(Seq::<char>::empty() + name + Seq::<char>::empty() =~= name);
}

/// Every character of a pack's folder name other than the fallback `geral`
/// is a letter or digit in the Unicode sense, a space, `-` or `_`.
pub proof fn lemma_pack_name_chars(name: Seq<char>, i: int)
    requires
        pack_name(name) != "geral"@,
        0 <= i < pack_name(name).len(),
    ensures
        is_alnum(pack_name(name)[i]) || pack_name(name)[i] == ' ' || pack_name(name)[i] == '-'
            || pack_name(name)[i] == '_',
{
    let pred = |c: char| is_alnum(c) || c == ' ' || c == '-' || c == '_';
    let f = name.filter(pred);
    crate::text::lemma_trim_within(f);
    let k = choose|k: int| 0 <= k < f.len() && f[k] == pack_name(name)[i];
    name.lemma_filter_pred(pred, k);
}

/// Safe folder name for a sticker pack.
pub fn sanitize(name: &str) -> (r: String)
    ensures
        r@ == pack_name(name@),
{
    let cs = chars_of(name);
    let ghost pred = |c: char| is_alnum(c) || c == ' ' || c == '-' || c == '_';
    let mut s = String::new();
    let mut i: usize = 0;
    while i < cs.len()
        invariant
            cs@ == name@,
            i <= cs.len(),
            pred == (|c: char| is_alnum(c) || c == ' ' || c == '-' || c == '_'),
            s@ == name@.take(i as int).filter(pred),
        decreases cs.len() - i,
    {
        let c = cs[i];
        proof {
            assert(name@.take(i + 1) =~= name@.take(i as int).push(c));
            crate::order::lemma_filter_push(name@.take(i as int), c, pred);
        }
        if is_alphanumeric(c) || c == ' ' || c == '-' || c == '_' {
            push_char(&mut s, c);
        }
        i += 1;
    }
    assert(name@.take(cs.len() as int) =~= name@);
    let t = trim_str(s.as_str());
    if t.as_str().is_empty() {
        owned("geral")
    } else {
        t
    }
}

/// File name of the avatar cached for a contact: its id's ASCII letters and
/// digits, then `.png`.
pub open spec fn contact_avatar_file(node_id: Seq<char>) -> Seq<char> {
    alnum_only(node_id) + ".png"@
}

/// The file name under which a contact's avatar is cached.
pub fn contact_avatar_file_name(node_id: &str) -> (r: String)
    ensures
        r@ == contact_avatar_file(node_id@),
{
    let mut s = ascii_alnum_of(node_id);
    push_str(&mut s, ".png");
    s
}

/// The storage panel recognises a cached avatar by the very name the cache
/// gives it (up to case): a live contact's avatar is never taken for an orphan.
pub proof fn lemma_avatar_names_agree(node_id: Seq<char>)
    ensures
        avatar_name(node_id) == lower(contact_avatar_file(node_id)),
{
}

pub open spec fn bad_transfer_id_msg() -> Seq<char> {
    "id de transferência inválido"@
}

/// Name of the partial file of a transfer: the id's ASCII letters and digits;
/// an id with none is refused.
pub fn partial_file_name(transfer_id: &str) -> (r: Result<String, String>)
    ensures
        alnum_only(transfer_id@).len() > 0 ==> (r matches Ok(n) && n@ == alnum_only(transfer_id@)),
        alnum_only(transfer_id@).len() == 0 ==> (r matches Err(e) && e@ == bad_transfer_id_msg()),
{
    let safe = ascii_alnum_of(transfer_id);
    if safe.as_str().is_empty() {
        return Err(owned("id de transferência inválido"));
    }
    Ok(safe)
}

/// The name an attachment is sent under: the file name of its path,
/// `arquivo` when the path has none.
pub open spec fn attachment_name_of(path: Seq<char>) -> Seq<char> {
    match path_file_name(path) {
        Some(n) => n,
        None => "arquivo"@,
    }
}

/// The name of the file at `path`, for an attachment.
pub fn attachment_name(path: &str) -> (r: String)
    ensures
        r@ == attachment_name_of(path@),
{
    match file_name(path) {
        Some(n) => n,
        None => owned("arquivo"),
    }
}

// ---------------------------------------------------------------------------
// my avatar
// ---------------------------------------------------------------------------

/// Side of the square my avatar is fitted into, in pixels.
pub const AVATAR_PX: u32 = 128;

/// Does `image::load_from_memory` decode the bytes (the format is guessed
/// from their first bytes)?
pub uninterp spec fn image_decodes(image: Seq<u8>) -> bool;

/// The PNG that `image` writes for `thumbnail(size, size)` (aspect ratio
/// kept) of the image the bytes decode to; `None` when they do not decode or
/// the thumbnail does not encode.
pub uninterp spec fn avatar_thumbnail_png(image: Seq<u8>, size: u32) -> Option<Seq<u8>>;

/// Why an image did not become a thumbnail, with the library's message.
enum ImageFailure {
    Decode(String),
    Encode(String),
}

/// `image::load_from_memory(bytes)`, then `thumbnail(size, size)` written to
/// memory as PNG with `write_to`.
#[verifier::external_body]
fn thumbnail_png(bytes: &[u8], size: u32) -> (r: Result<Vec<u8>, ImageFailure>)
    ensures
        image_decodes(bytes@) <==> !(r matches Err(ImageFailure::Decode(_))),
        match r {
            Ok(p) => avatar_thumbnail_png(bytes@, size) == Some(p@),
            Err(_) => avatar_thumbnail_png(bytes@, size) is None,
        },
{
    let img = match image::load_from_memory(bytes) {
        Ok(img) => img,
        Err(e) => return Err(ImageFailure::Decode(e.to_string())),
    };
    let mut out = std::io::Cursor::new(Vec::new());
    match img.thumbnail(size, size).write_to(&mut out, image::ImageFormat::Png) {
        Ok(()) => Ok(out.into_inner()),
        Err(e) => Err(ImageFailure::Encode(e.to_string())),
    }
}

pub open spec fn bad_image_prefix() -> Seq<char> {
    "imagem inválida: "@
}

pub open spec fn avatar_save_prefix() -> Seq<char> {
    "falha ao salvar avatar: "@
}

/// An image's bytes made into my avatar: fitted into `AVATAR_PX` pixels
/// square, aspect ratio kept, as PNG. Bytes that are no image are refused as
/// an invalid image; a thumbnail that does not encode, as a failed save.
pub fn avatar_png(image: &[u8]) -> (r: Result<Vec<u8>, String>)
    ensures
        match avatar_thumbnail_png(image@, AVATAR_PX) {
            Some(p) => r matches Ok(v) && v@ == p,
            None => r matches Err(e) && (if image_decodes(image@) {
                avatar_save_prefix()
            } else {
                bad_image_prefix()
            }).is_prefix_of(e@),
        },
{
    match thumbnail_png(image, AVATAR_PX) {
        Ok(p) => Ok(p),
        Err(ImageFailure::Decode(e)) => {
            let mut msg = owned("imagem inválida: ");
            push_str(&mut msg, e.as_str());
            Err(msg)
        },
        Err(ImageFailure::Encode(e)) => {
            let mut msg = owned("falha ao salvar avatar: ");
            push_str(&mut msg, e.as_str());
            Err(msg)
        },
    }
}

/// A sticker: its pack and the path of its image.
pub struct Sticker {
    pub pack: String,
    pub path: String,
}

} // verus!
