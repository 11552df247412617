use taylorchat::crypto::{derive_key, hash_hex};
use taylorchat::db::{
    audit_of, card_field_of, contact_name, dec_text, enc_text, extra_threads_pattern, key_of,
    keyword_from_blob, keyword_hash, keyword_status, message_from_row, messages_from_rows,
    normalize_node_id, outgoing_body, page_before, page_limit, profile_name_from, search_hits,
    summarize, AuditRow, MessageRow, SearchRow, SummaryRow,
};

fn key() -> [u8; 32] {
    derive_key(&[11u8; 32])
}

fn row(id: i64, body: &str, deleted: i64) -> MessageRow {
    MessageRow {
        id,
        peer: "abc".to_string(),
        direction: "in".to_string(),
        kind: "text".to_string(),
        body: enc_text(Some(key()), body).unwrap(),
        ts: 1000 + id,
        state: "received".to_string(),
        reply_to: None,
        reply_preview: None,
        deleted,
    }
}

#[test]
fn bodies_read_back_under_the_same_key() {
    let blob = enc_text(Some(key()), "olá").unwrap();
    assert_eq!(dec_text(Some(key()), &blob), "olá");
    assert_eq!(dec_text(Some(derive_key(&[12u8; 32])), &blob), "⟨mensagem ilegível⟩");
    assert_eq!(dec_text(None, &blob), "⟨mensagem ilegível⟩");
    assert_eq!(
        enc_text(None, "x").err().unwrap(),
        "chave de cifra ausente (banco não inicializado)"
    );
    assert_eq!(key_of(Some(key())).unwrap(), key());
}

#[test]
fn a_page_comes_oldest_first_and_deleted_bodies_are_empty() {
    let rows = vec![row(3, "três", 0), row(2, "dois", 1), row(1, "um", 0)];
    let page = messages_from_rows(rows, Some(key()));
    let ids: Vec<i64> = page.iter().map(|m| m.id).collect();
    assert_eq!(ids, vec![1, 2, 3]);
    assert_eq!(page[0].body, "um");
    assert_eq!(page[1].body, "");
    assert!(page[1].deleted);
    assert_eq!(page[2].body, "três");
    let one = message_from_row(row(9, "nove", 0), Some(key()));
    assert_eq!((one.id, one.ts, one.body.as_str()), (9, 1009, "nove"));
}

#[test]
fn page_bounds() {
    assert_eq!(page_limit(None), 300);
    assert_eq!(page_limit(Some(0)), 1);
    assert_eq!(page_limit(Some(50)), 50);
    assert_eq!(page_limit(Some(1_000_000)), 100_000);
    assert_eq!(page_before(None), i64::MAX);
    assert_eq!(page_before(Some(42)), 42);
}

#[test]
fn search_finds_text_ignoring_case() {
    let rows: Vec<SearchRow> = ["Bom dia", "boa noite", "BOM apetite"]
        .iter()
        .enumerate()
        .map(|(i, t)| SearchRow {
            convo: format!("c{i}"),
            body: enc_text(Some(key()), t).unwrap(),
            ts: i as i64,
        })
        .collect();
    let clone = |rows: &Vec<SearchRow>| -> Vec<SearchRow> {
        rows.iter()
            .map(|r| SearchRow { convo: r.convo.clone(), body: r.body.clone(), ts: r.ts })
            .collect()
    };
    let hits = search_hits(clone(&rows), Some(key()), "  bom ", 10);
    let convos: Vec<&str> = hits.iter().map(|h| h.convo.as_str()).collect();
    assert_eq!(convos, vec!["c0", "c2"]);
    assert_eq!(hits[1].snippet, "BOM apetite");
    assert_eq!(search_hits(clone(&rows), Some(key()), "bom", 1).len(), 1);
    assert!(search_hits(clone(&rows), Some(key()), "   ", 10).is_empty());
}

#[test]
fn previews_of_the_last_message() {
    let text = SummaryRow {
        peer: "abc".to_string(),
        kind: "text".to_string(),
        body: enc_text(Some(key()), &"a".repeat(120)).unwrap(),
        ts: 5,
        direction: "out".to_string(),
        deleted: 0,
    };
    assert_eq!(summarize(text, Some(key())).body, "a".repeat(90));
    let file = SummaryRow {
        peer: "abc".to_string(),
        kind: "file".to_string(),
        body: enc_text(Some(key()), r#"{"filename":"foto.png","size":3}"#).unwrap(),
        ts: 6,
        direction: "in".to_string(),
        deleted: 0,
    };
    assert_eq!(summarize(file, Some(key())).body, "📎 foto.png");
    let gone = SummaryRow {
        peer: "abc".to_string(),
        kind: "text".to_string(),
        body: Vec::new(),
        ts: 7,
        direction: "in".to_string(),
        deleted: 1,
    };
    let s = summarize(gone, Some(key()));
    assert_eq!(s.body, "");
    assert!(s.deleted);
}

fn audit_rows(order: &[usize]) -> Vec<AuditRow> {
    let all = [
        ("out", "text", "oi", 10i64),
        ("in", "text", "olá", 11),
        ("in", "file", r#"{"filename":"a.png","size":7,"localPath":"/x/a.png"}"#, 12),
    ];
    order
        .iter()
        .map(|&i| {
            let (d, k, b, ts) = all[i];
            AuditRow {
                direction: d.to_string(),
                kind: k.to_string(),
                body: enc_text(Some(key()), b).unwrap(),
                ts,
            }
        })
        .collect()
}

#[test]
fn audit_digest_does_not_depend_on_order() {
    let a = audit_of(&audit_rows(&[0, 1, 2]), Some(key()), "me", "peer");
    let b = audit_of(&audit_rows(&[2, 0, 1]), Some(key()), "me", "peer");
    assert_eq!(a.count, 3);
    assert_eq!(a.digest, b.digest);
    // the digest is SHA-256 of the sorted, normalised lines
    let lines = ["me\t10\ttext\toi", "peer\t11\ttext\tolá", "peer\t12\tfile\ta.png|7"];
    let mut sorted = lines.to_vec();
    sorted.sort();
    assert_eq!(a.digest, hash_hex(sorted.join("\n").as_bytes()));
}

#[test]
fn the_local_path_does_not_enter_the_audit() {
    let mut rows = audit_rows(&[2]);
    rows[0].body = enc_text(Some(key()), r#"{"filename":"a.png","size":7,"localPath":"C:/y"}"#).unwrap();
    let a = audit_of(&rows, Some(key()), "me", "peer");
    let b = audit_of(&audit_rows(&[2]), Some(key()), "me", "peer");
    assert_eq!(a.digest, b.digest);
}

#[test]
fn contact_fields() {
    assert_eq!(normalize_node_id("  ABCdef \n"), "abcdef");
    assert_eq!(extra_threads_pattern("abc"), "abc#%");
    assert_eq!(card_field_of("  a@b.c "), Some("a@b.c".to_string()));
    assert_eq!(card_field_of("   "), None);
}

#[test]
fn display_names() {
    let node = "0123456789abcdef0123";
    assert_eq!(contact_name(node, None), "012345…0123");
    assert_eq!(contact_name(node, Some(("Ana".to_string(), None))), "Ana");
    assert_eq!(
        contact_name(node, Some((" ".to_string(), Some("Ana Perfil".to_string())))),
        "Ana Perfil"
    );
    assert_eq!(contact_name(node, Some(("".to_string(), Some("  ".to_string())))), "012345…0123");
    assert_eq!(contact_name("curto", None), "curto");
}

#[test]
fn keywords_compare_by_hash_of_the_lower_case_word() {
    assert_eq!(keyword_hash("Girassol"), hash_hex(b"girassol"));
    let st = keyword_status(Some(" Girassol ".to_string()), Some(hash_hex(b"girassol")));
    assert!(st.has_mine && st.has_peer);
    assert_eq!(st.matches, Some(true));
    assert_eq!(st.word.as_deref(), Some(" Girassol "));
    let st = keyword_status(Some("x".to_string()), Some(hash_hex(b"y")));
    assert_eq!(st.matches, Some(false));
    let st = keyword_status(None, Some(hash_hex(b"y")));
    assert_eq!((st.has_mine, st.has_peer, st.matches), (false, true, None));
    let blob = enc_text(Some(key()), "palavra").unwrap();
    assert_eq!(keyword_from_blob(Some(key()), &blob).unwrap(), "palavra");
}

#[test]
fn profile_names_and_outgoing_text() {
    assert_eq!(profile_name_from(None), "");
    assert_eq!(profile_name_from(Some(b"Ana".to_vec())), "Ana");
    assert_eq!(outgoing_body("  oi  ").unwrap(), "oi");
    assert_eq!(outgoing_body(" \n ").err().unwrap(), "mensagem vazia");
}

#[test]
fn mirrored_devices_compute_the_same_audit() {
    // device 1: me = "ana", peer = "bia"
    let d1 = audit_rows(&[0, 1, 2]);
    // device 2 holds the same messages with directions flipped, in another
    // order, under its own key, and the file at another local path
    let k2 = derive_key(&[12u8; 32]);
    let row = |d: &str, k: &str, b: &str, ts: i64| AuditRow {
        direction: d.to_string(),
        kind: k.to_string(),
        body: enc_text(Some(k2), b).unwrap(),
        ts,
    };
    let d2 = vec![
        row("out", "file", r#"{"filename":"a.png","size":7,"localPath":"D:/outro/a.png"}"#, 12),
        row("in", "text", "oi", 10),
        row("out", "text", "olá", 11),
    ];
    let a1 = audit_of(&d1, Some(key()), "ana", "bia");
    let a2 = audit_of(&d2, Some(k2), "bia", "ana");
    assert_eq!(a1.count, a2.count);
    assert_eq!(a1.digest, a2.digest);
}
