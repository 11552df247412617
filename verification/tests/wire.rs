use taylorchat::identity::hex;
use taylorchat::net::FrameKind;
use taylorchat::wire::{
    bundle_frame, file_envelope, file_offer, header_frame, keyword_envelope, ping_frame,
    prekey_request_frame, profile_envelope, queued_file, read_bundle, read_content,
    read_envelope, read_resume, read_sealed, received_file_meta, resume_frame, sent_file_meta,
    stream_opening, text_envelope, Incoming,
};

// "chave" of 32 bytes: 0, 1, ..., 31 in standard base64.
const KEY_B64: &str = "AAECAwQFBgcICQoLDA0ODxAREhMUFRYXGBkaGxwdHh8=";

fn key32() -> [u8; 32] {
    core::array::from_fn(|i| i as u8)
}

#[test]
fn frames_are_compact_json_with_sorted_keys() {
    assert_eq!(ping_frame(), r#"{"t":"ping"}"#);
    assert_eq!(prekey_request_frame(), r#"{"t":"req_prekey"}"#);
    assert_eq!(bundle_frame("IK", "OK"), r#"{"identity_key":"IK","one_time_key":"OK","t":"bundle"}"#);
    assert_eq!(resume_frame(7), r#"{"resumeChunk":7}"#);
    assert_eq!(header_frame(&[1, 2, 3], None, false), r#"{"olm":"AQID","t":"msg"}"#);
    assert_eq!(
        header_frame(&[1, 2, 3], Some("ID"), true),
        r#"{"olm":"AQID","sender_identity":"ID","streamed":true,"t":"msg_prekey"}"#
    );
}

#[test]
fn envelopes() {
    assert_eq!(
        text_envelope("oi \"Bob\"", -5, ""),
        r#"{"body":"oi \"Bob\"","k":"text","thread":"","ts":-5}"#
    );
    assert_eq!(keyword_envelope("h"), r#"{"hash":"h","k":"keyword"}"#);
    assert_eq!(read_envelope("t1"), r#"{"k":"read","thread":"t1"}"#);
    assert_eq!(profile_envelope("Ana", None), r#"{"avatar":"","k":"profile","name":"Ana"}"#);
    assert_eq!(profile_envelope("Ana", Some(&[1, 2, 3])), r#"{"avatar":"AQID","k":"profile","name":"Ana"}"#);
    assert_eq!(
        file_envelope("a.png", "image/png", 10, "tid", &key32(), 99, "t", true),
        format!(
            r#"{{"fileKey":"{KEY_B64}","filename":"a.png","k":"file","mime":"image/png","size":10,"sticker":true,"thread":"t","transferId":"tid","ts":99}}"#
        )
    );
}

#[test]
fn file_metadata() {
    assert_eq!(
        sent_file_meta("a.png", "image/png", 10, "/l/a.png", "tid", &key32(), false),
        format!(
            r#"{{"fileKey":"{KEY_B64}","filename":"a.png","localPath":"/l/a.png","mime":"image/png","size":10,"sticker":false,"transferId":"tid"}}"#
        )
    );
    assert_eq!(
        received_file_meta("a.png", "image/png", 10, "/l/a.png", true),
        r#"{"filename":"a.png","localPath":"/l/a.png","mime":"image/png","size":10,"sticker":true}"#
    );
}

#[test]
fn opening_a_stream() {
    assert_eq!(stream_opening(ping_frame().as_bytes()).unwrap(), FrameKind::Ping);
    assert_eq!(stream_opening(prekey_request_frame().as_bytes()).unwrap(), FrameKind::PrekeyRequest);
    assert_eq!(stream_opening(br#"{"t":"msg","olm":""}"#).unwrap(), FrameKind::Message);
    assert_eq!(
        stream_opening(br#"{"t":"msg_prekey"}"#).err().unwrap(),
        r#"frame desconhecido: Some("msg_prekey")"#
    );
    assert_eq!(stream_opening(br#"{"x":1}"#).err().unwrap(), "frame desconhecido: None");
    assert!(stream_opening(b"nao json").is_err());
    assert!(stream_opening(&[0xff, 0xfe]).is_err());
}

#[test]
fn headers_read_back() {
    let s = read_sealed(header_frame(&[1, 2, 3], None, false).as_bytes()).unwrap();
    assert_eq!((s.sender_identity, s.olm), (None, vec![1, 2, 3]));
    let s = read_sealed(header_frame(&[4], Some("ID"), true).as_bytes()).unwrap();
    assert_eq!((s.sender_identity.as_deref(), s.olm), (Some("ID"), vec![4]));
    assert_eq!(read_sealed(br#"{"t":"msg"}"#).err().unwrap(), "faltou olm");
    assert_eq!(
        read_sealed(br#"{"t":"msg_prekey","olm":"AQID"}"#).err().unwrap(),
        "faltou sender_identity"
    );
    assert!(read_sealed(br#"{"t":"msg","olm":"@@"}"#).err().unwrap().starts_with("base64 inválido: "));
}

#[test]
fn bundles_and_resume_answers_read_back() {
    let b = read_bundle(bundle_frame("IK", "OK").as_bytes()).unwrap();
    assert_eq!((b.identity_key.as_str(), b.one_time_key.as_str()), ("IK", "OK"));
    assert_eq!(read_bundle(br#"{"t":"bundle"}"#).err().unwrap(), "bundle sem identity_key");
    assert_eq!(read_bundle(br#"{"identity_key":"IK"}"#).err().unwrap(), "bundle sem one_time_key");
    assert_eq!(read_resume(resume_frame(3).as_bytes()).unwrap(), 3);
    assert_eq!(read_resume(b"{}").unwrap(), 0);
    assert!(read_resume(b"x").is_err());
}

#[test]
fn envelopes_read_back() {
    let c = read_content(&text_envelope("oi", 42, "t1"), "abc", 7).unwrap();
    assert_eq!((c.ts, c.convo.as_str()), (42, "abc#t1"));
    assert!(matches!(c.what, Ok(Incoming::Text(ref b)) if b == "oi"));

    let c = read_content(r#"{"k":"text"}"#, "abc", 7).unwrap();
    assert_eq!((c.ts, c.convo.as_str()), (7, "abc"));
    assert!(matches!(c.what, Ok(Incoming::Text(ref b)) if b.is_empty()));

    let c = read_content(&read_envelope(""), "abc", 7).unwrap();
    assert!(matches!(c.what, Ok(Incoming::Read)));

    let c = read_content(&keyword_envelope("h"), "abc", 7).unwrap();
    assert!(matches!(c.what, Ok(Incoming::Keyword(ref h)) if h == "h"));
    let c = read_content(r#"{"k":"keyword"}"#, "abc", 7).unwrap();
    assert_eq!(c.what.err().unwrap(), "keyword sem hash");

    let c = read_content(&profile_envelope("Ana", Some(&[1, 2, 3])), "abc", 7).unwrap();
    assert!(matches!(c.what, Ok(Incoming::Profile(ref n, Some(ref a))) if n == "Ana" && a == &vec![1, 2, 3]));
    let c = read_content(&profile_envelope("Ana", None), "abc", 7).unwrap();
    assert!(matches!(c.what, Ok(Incoming::Profile(_, None))));

    let c = read_content(r#"{"k":"outra"}"#, "abc", 7).unwrap();
    assert_eq!(c.what.err().unwrap(), r#"conteúdo desconhecido: Some("outra")"#);

    assert!(read_content("nao json", "abc", 7).err().unwrap().starts_with("conteúdo inválido: "));
}

#[test]
fn file_offers_read_back() {
    let env = file_envelope("a.png", "image/png", 10, "tid", &key32(), 99, "", true);
    let c = read_content(&env, "abc", 7).unwrap();
    match c.what {
        Ok(Incoming::File(f)) => {
            assert_eq!(f.filename, "a.png");
            assert_eq!(f.mime, "image/png");
            assert_eq!(f.size, 10);
            assert_eq!(f.transfer_id, "tid");
            assert_eq!(f.file_key, key32());
            assert!(f.sticker);
        }
        _ => panic!("a file offer was expected"),
    }
    let f = file_offer(&format!(r#"{{"transferId":"t","fileKey":"{KEY_B64}"}}"#)).unwrap();
    assert_eq!((f.filename.as_str(), f.mime.as_str(), f.size, f.sticker), ("arquivo", "application/octet-stream", 0, false));
    assert_eq!(file_offer(r#"{"fileKey":"x"}"#).err().unwrap(), "arquivo sem transferId");
    assert_eq!(file_offer(r#"{"transferId":"t"}"#).err().unwrap(), "arquivo sem chave");
    assert_eq!(file_offer(r#"{"transferId":"t","fileKey":"AQID"}"#).err().unwrap(), "chave de arquivo inválida");
}

#[test]
fn queued_files_read_back() {
    let meta = sent_file_meta("a.png", "image/png", 10, "/l/a.png", "tid", &key32(), true);
    let r = queued_file(&meta).unwrap().unwrap();
    assert_eq!(r.local_path, "/l/a.png");
    assert_eq!(r.transfer_id, "tid");
    assert_eq!(r.file_key, key32());
    assert!(r.sticker);
    // missing fields or a short key: it cannot be resent
    assert!(queued_file(r#"{"filename":"a.png"}"#).unwrap().is_none());
    assert!(queued_file(r#"{"localPath":"p","filename":"a","mime":"m","transferId":"t","fileKey":"AQID"}"#).unwrap().is_none());
    assert!(queued_file("{").err().unwrap().starts_with("anexo corrompido: "));
    assert_eq!(hex(&key32()[..2]), "0001");
}

#[test]
fn strings_are_escaped_as_serde_json_escapes_them() {
    let mut odd: String = (0u32..0x80).filter_map(char::from_u32).collect();
    odd.push_str("olá \u{2028} 🌎 \u{7f}");
    for s in [odd.as_str(), "", "plain", "a\"b\\c/d", "\u{0}\u{1f}\u{8}\u{c}"] {
        assert_eq!(read_envelope(s), format!("{{\"k\":\"read\",\"thread\":{}}}", serde_json::to_string(s).unwrap()));
    }
    assert_eq!(read_envelope("\u{1}\n"), "{\"k\":\"read\",\"thread\":\"\\u0001\\n\"}");
}

#[test]
fn a_frame_that_is_not_utf8_is_refused_with_serde_json_message() {
    for frame in [&b"{\"t\":\"\xff\"}"[..], &b"\xc3"[..], &b"{\"t\":\"ping\"} \xfe"[..]] {
        let expected = serde_json::from_slice::<serde_json::Value>(frame).unwrap_err().to_string();
        assert_eq!(stream_opening(frame).unwrap_err(), expected);
        assert_eq!(read_sealed(frame).err().unwrap(), expected);
    }
}
