//! Out-of-band pairing: I show my invite (text and QR), the other side pastes or
//! scans it and I become a contact. An invite is `taylorchat:` followed by my
//! `node_id`.

use vstd::prelude::*;
use vstd::utf8::*;
use crate::identity::{
    Identity, hex_decode_32, hex_decode_result, hex_digit, hex_text, ed25519_public, lemma_hex_roundtrip,
    lemma_hex_text_bytes, lemma_trim_hex_text,
};
use crate::text::{
    ascii_lower, chars_of, is_ws, lemma_char_floor, lower, owned, push_str, string_of,
    starts_with, to_lower, trim, trim_end, trim_start, trim_str,
};

verus! {

broadcast use vstd::seq_lib::group_seq_properties;

/// My public identity for the pairing screen.
pub struct MyIdentity {
    pub node_id: String,
    pub invite: String,
    pub qr_svg: String,
}

/// The contact id that an invite names.
pub struct ParsedInvite {
    pub node_id: String,
}

/// The invite scheme.
pub open spec fn scheme() -> Seq<char> {
    "taylorchat:"@
}

/// The invite text of a node id.
pub open spec fn invite_text(node_id: Seq<char>) -> Seq<char> {
    scheme() + node_id
}

/// `str::trim_start_matches('/')`.
pub open spec fn strip_slashes(s: Seq<char>) -> Seq<char>
    decreases s.len(),
{
    if s.len() > 0 && s[0] == '/' {
        strip_slashes(s.drop_first())
    } else {
        s
    }
}

/// The node id candidate of a pasted text: without the scheme, without the
/// slashes of `taylorchat://`, trimmed and lower-cased.
pub open spec fn invite_candidate(text: Seq<char>) -> Seq<char> {
    let t = trim(text);
    let h = trim(if scheme().is_prefix_of(t) { t.skip(scheme().len() as int) } else { t });
    lower(trim(strip_slashes(h)))
}

/// What `parse_invite` answers for a pasted text.
pub open spec fn parsed_invite(text: Seq<char>) -> Result<Seq<char>, Seq<char>> {
    let c = invite_candidate(text);
    match hex_decode_result(c) {
        Ok(_) => Ok(c),
        Err(e) => Err(e),
    }
}

fn strip_slashes_str(s: &str) -> (r: String)
    ensures
        r@ == strip_slashes(s@),
{
    let cs = chars_of(s);
    let mut i: usize = 0;
    while i < cs.len() && cs[i] == '/'
        invariant
            cs@ == s@,
            i <= cs.len(),
            strip_slashes(s@) == strip_slashes(s@.skip(i as int)),
        decreases cs.len() - i,
    {
        assert(s@.skip(i as int).drop_first() =~= s@.skip(i + 1));
        i += 1;
    }
    assert(cs@.subrange(i as int, cs.len() as int) =~= s@.skip(i as int));
    string_of(&cs, i, cs.len())
}

/// Reads a pasted or scanned invite. It takes the full `taylorchat:<hex>` form
/// or the 64 hex characters alone, and gives the node id in lower case.
pub fn parse_invite(text: String) -> (r: Result<ParsedInvite, String>)
    ensures
        match parsed_invite(text@) {
            Ok(n) => r matches Ok(p) && p.node_id@ == n,
            Err(e) => r matches Err(m) && m@ == e,
        },
{
    let t = trim_str(text.as_str());
    let rest = if starts_with(t.as_str(), "taylorchat:") {
        proof {
            reveal_strlit("taylorchat:");
        }
        let cs = chars_of(t.as_str());
        string_of(&cs, 11, cs.len())
    } else {
        t
    };
    proof {
        if scheme().is_prefix_of(trim(text@)) {
            reveal_strlit("taylorchat:");
            assert(rest@ =~= trim(text@).skip(scheme().len() as int));
        }
    }
    let h = trim_str(rest.as_str());
    let h = strip_slashes_str(h.as_str());
    let h = trim_str(h.as_str());
    let h = to_lower(h.as_str());
    match hex_decode_32(h.as_str()) {
        Ok(_) => Ok(ParsedInvite { node_id: h }),
        Err(e) => Err(e),
    }
}

/// The invite text of my identity.
pub fn invite_of(node_id: &str) -> (r: String)
    ensures
        r@ == invite_text(node_id@),
{
    let mut s = owned("taylorchat:");
    push_str(&mut s, node_id);
    s
}

/// The SVG of the QR code of `data`, drawn at least `min_size` pixels wide with
/// the `dark` and `light` colours and a quiet zone; `None` when the data does
/// not fit in a QR code.
pub uninterp spec fn qr_svg_image(data: Seq<u8>, min_size: nat, dark: Seq<char>, light: Seq<char>) -> Option<Seq<char>>;

/// `QrCode::new(data)` rendered as SVG with the given size and colours; the
/// error is the crate's message.
#[verifier::external_body]
fn qr_svg_render(data: &str, min_size: u32, dark: &str, light: &str) -> (r: Result<String, String>)
    ensures
        match r {
            Ok(svg) => qr_svg_image(encode_utf8(data@), min_size as nat, dark@, light@) == Some(svg@),
            Err(_) => qr_svg_image(encode_utf8(data@), min_size as nat, dark@, light@) is None,
        },
{
    let code = qrcode::QrCode::new(data.as_bytes()).map_err(|e| e.to_string())?;
    Ok(code
        .render::<qrcode::render::svg::Color>()
        .min_dimensions(min_size, min_size)
        .quiet_zone(true)
        .dark_color(qrcode::render::svg::Color(dark))
        .light_color(qrcode::render::svg::Color(light))
        .build())
}

pub open spec fn qr_error_prefix() -> Seq<char> {
    "falha ao gerar QR: "@
}

/// The QR code of an invite: 220 px, near-black on white.
pub open spec fn invite_qr(data: Seq<char>) -> Option<Seq<char>> {
    qr_svg_image(encode_utf8(data), 220, "#111827"@, "#ffffff"@)
}

/// The QR code (SVG) of `data`.
pub fn qr_svg(data: &str) -> (r: Result<String, String>)
    ensures
        match invite_qr(data@) {
            Some(svg) => r matches Ok(s) && s@ == svg,
            None => r matches Err(e) && qr_error_prefix().is_prefix_of(e@),
        },
{
    match qr_svg_render(data, 220, "#111827", "#ffffff") {
        Ok(svg) => Ok(svg),
        Err(e) => {
            let mut msg = owned("falha ao gerar QR: ");
            push_str(&mut msg, e.as_str());
            Err(msg)
        },
    }
}

/// My public identity for the pairing screen: id, invite text and its QR code.
pub fn my_identity(id: &Identity) -> (r: Result<MyIdentity, String>)
    ensures
        ({
            let n = hex_text(ed25519_public(id.secret()));
            match invite_qr(invite_text(n)) {
                Some(svg) => r matches Ok(m) && m.node_id@ == n && m.invite@ == invite_text(n)
                    && m.qr_svg@ == svg,
                None => r matches Err(e) && qr_error_prefix().is_prefix_of(e@),
            }
        }),
{
    let node_id = id.node_id_hex();
    let invite = invite_of(node_id.as_str());
    let qr = qr_svg(invite.as_str())?;
    Ok(MyIdentity { node_id, invite, qr_svg: qr })
}

proof fn lemma_trim_fixed(s: Seq<char>)
    requires
        s.len() > 0,
        !is_ws(s[0]),
        !is_ws(s.last()),
    ensures
        trim(s) == s,
{
}

/// Hex text read back as an invite candidate is itself.
proof fn lemma_candidate_of_hex(b: Seq<u8>)
    requires
        b.len() == 32,
    ensures
        trim(strip_slashes(trim(hex_text(b)))) == hex_text(b),
        lower(hex_text(b)) == hex_text(b),
{
    let h = hex_text(b);
    lemma_trim_hex_text(b);
    lemma_hex_text_bytes(b);
    assert(h[0] != '/');
    assert(strip_slashes(h) == h);
    assert forall|i: int| 0 <= i < h.len() implies '\0' <= #[trigger] h[i] <= '\u{7f}' by {
        lemma_char_floor(h[i]);
    }
    assert(ascii_lower(h) =~= h);
}

/// An invite reads back as the node id it was made from, and so does the bare
/// node id: pairing by QR or by pasting the id names the same contact.
pub proof fn lemma_invite_roundtrip(b: Seq<u8>)
    requires
        b.len() == 32,
    ensures
        parsed_invite(invite_text(hex_text(b))) == Ok::<Seq<char>, Seq<char>>(hex_text(b)),
        parsed_invite(hex_text(b)) == Ok::<Seq<char>, Seq<char>>(hex_text(b)),
{
    reveal_strlit("taylorchat:");
    let h = hex_text(b);
    let inv = invite_text(h);
    lemma_candidate_of_hex(b);
    lemma_hex_roundtrip(b);
    lemma_trim_hex_text(b);
    // the bare id
    assert(!scheme().is_prefix_of(h)) by {
        let d = (b[0] / 16) as int;
        assert(h[0] == hex_digit(d));
        assert(h[0] != 't');
        assert(scheme()[0] == 't');
    }
    assert(invite_candidate(h) == h);
    // the full invite
    assert(inv[0] == 't');
    assert(inv.last() == h.last());
    assert(!is_ws(h.last())) by {
        assert(trim(h) == h);
        if is_ws(h.last()) {
            assert(trim_end(trim_start(h)).len() < h.len()) by {
                assert(trim_start(h) == h);
            }
        }
    }
    lemma_trim_fixed(inv);
    assert(scheme().is_prefix_of(inv));
    assert(inv.skip(11) =~= h);
    assert(invite_candidate(inv) == h);
}

} // verus!
