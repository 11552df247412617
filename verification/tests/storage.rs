use taylorchat::storage::{
    old_backups, orphan_attachments, orphan_avatars, referenced_names, sum_len, tally, Freed,
};

/// The body of an attachment message, as `attach_file` stores it.
fn meta(local_path: &str) -> Option<String> {
    Some(format!(
        "{{\"fileKey\":\"k\",\"filename\":\"foto.png\",\"localPath\":\"{local_path}\",\"mime\":\"image/png\",\"size\":10,\"sticker\":false,\"transferId\":\"abc\"}}"
    ))
}

/// A folder in memory: paths and sizes.
fn folder(dir: &str, files: &[(&str, u64)]) -> Vec<(String, u64)> {
    files.iter().map(|(n, s)| (format!("{dir}/{n}"), *s)).collect()
}

fn paths(f: &[(String, u64)]) -> Vec<String> {
    f.iter().map(|(p, _)| p.clone()).collect()
}

/// Removes `targets` from the folder, as a run of successful removals, and
/// tallies what went.
fn remove_all(f: &mut Vec<(String, u64)>, targets: &[String]) -> Freed {
    let mut outcomes = Vec::new();
    for t in targets {
        match f.iter().position(|(p, _)| p == t) {
            Some(i) => {
                let (_, s) = f.remove(i);
                outcomes.push((true, s));
            }
            None => outcomes.push((false, 0)),
        }
    }
    tally(&outcomes)
}

fn present(f: &[(String, u64)], p: &str) -> bool {
    f.iter().any(|(q, _)| q == p)
}

#[test]
fn orfaos_sao_so_os_que_ninguem_referencia() {
    let mut dir = folder("orfaos", &[("1_a.png", 100), ("2_b.pdf", 40), ("3_c.zip", 60)]);
    let used = referenced_names(&[meta("C:/dados/attachments/1_a.png")]).unwrap();
    let alvo = orphan_attachments(&paths(&dir), &used);
    assert_eq!(alvo.len(), 2);

    let freed = remove_all(&mut dir, &alvo);
    assert_eq!(freed, Freed { files: 2, bytes: 100 });
    assert!(present(&dir, "orfaos/1_a.png"), "anexo referenciado foi apagado");
    assert!(!present(&dir, "orfaos/2_b.pdf"));
    assert!(!present(&dir, "orfaos/3_c.zip"));
}

#[test]
fn entre_instalacoes_nao_apaga_anexo_vivo() {
    let mut dir = folder("reinstalacao", &[("1_a.png", 100), ("2_b.pdf", 40), ("3_c.zip", 60)]);
    let bodies = [
        meta("C:/Users/antigo/AppData/Roaming/com.taylorchat/attachments/1_a.png"),
        meta("/home/outro/.local/share/taylorchat/attachments/2_b.pdf"),
        meta("D:/perfil-de-rede/taylorchat/attachments/3_c.zip"),
    ];
    let used = referenced_names(&bodies).unwrap();
    let alvo = orphan_attachments(&paths(&dir), &used);
    assert!(alvo.is_empty(), "apagaria anexo vivo após reinstalar");

    // What stays is what matters: after the cleaning the three are still there.
    remove_all(&mut dir, &alvo);
    let stats = tally(&dir.iter().map(|(_, s)| (true, *s)).collect::<Vec<_>>());
    assert_eq!((stats.bytes, stats.files), (200, 3));
}

#[test]
fn linha_ilegivel_aborta_em_vez_de_apagar() {
    let erro = referenced_names(&[meta("qualquer/1_a.png"), None]).err().unwrap();
    assert!(erro.contains("cancelada"), "erro deveria explicar o cancelamento: {erro}");
    assert_eq!(erro, "não consegui ler 1 de 2 mensagens de anexo; limpeza cancelada por segurança");

    // Metadata that decrypted but is not JSON aborts too.
    assert!(referenced_names(&[Some("nao é json".into())]).is_err());
}

#[test]
fn anexo_sem_caminho_local_nao_e_erro() {
    let corpo = Some(r#"{"filename":"x.png","mime":"image/png","size":1}"#.to_string());
    assert!(referenced_names(&[corpo]).unwrap().is_empty());
    assert!(referenced_names(&[meta("")]).unwrap().is_empty());
}

#[test]
fn mensagem_apagada_nao_derruba_a_varredura() {
    let usados = referenced_names(&[meta("x/1_a.png"), Some(String::new())]).unwrap();
    assert_eq!(usados.len(), 1, "o anexo vivo continua protegido");
    assert!(usados.contains(&"1_a.png".to_string()));
    // Only white space is empty too.
    assert!(referenced_names(&[Some("   ".into())]).unwrap().is_empty());
}

#[test]
fn bad_json_names_the_row() {
    let erro = referenced_names(&[meta("a/1.png"), Some("{".into())]).err().unwrap();
    assert!(erro.starts_with("anexo #1 com metadados ilegíveis ("), "{erro}");
    assert!(erro.ends_with("); limpeza cancelada"), "{erro}");
}

#[test]
fn references_match_by_lower_case_name() {
    let used = referenced_names(&[meta("X:/velho/FOTO.PNG"), meta("y/foto.png")]).unwrap();
    assert_eq!(used, vec!["foto.png".to_string()]);
    let files = vec!["novo/Foto.png".to_string(), "novo/outra.png".to_string()];
    assert_eq!(orphan_attachments(&files, &used), vec!["novo/outra.png".to_string()]);
}

#[test]
fn avatar_de_contato_vivo_sobrevive() {
    let mut dir = folder("avatares", &[("abc123.png", 500), ("removido999.png", 300)]);
    let alvo = orphan_avatars(&paths(&dir), &["abc123".to_string()]);
    assert_eq!(alvo.len(), 1);
    let freed = remove_all(&mut dir, &alvo);
    assert_eq!(freed, Freed { files: 1, bytes: 300 });
    assert!(present(&dir, "avatares/abc123.png"), "avatar de contato ativo foi apagado");
}

#[test]
fn node_id_saneado_casa_com_o_arquivo() {
    let dir = folder("avatar-saneado", &[("abc123.png", 10)]);
    let alvo = orphan_avatars(&paths(&dir), &["abc-123".to_string()]);
    assert!(alvo.is_empty(), "node_id com hífen deixou de casar com o arquivo saneado");
}

#[test]
fn node_id_vazio_nao_protege_nada() {
    let dir = folder("avatar-vazio", &[(".png", 10)]);
    let alvo = orphan_avatars(&paths(&dir), &["".to_string()]);
    assert_eq!(alvo.len(), 1);
}

#[test]
fn backup_mais_recente_sempre_fica() {
    let mut dir = folder(
        "backups",
        &[
            ("chat-20260718.db", 100),
            ("chat-20260719.db", 200),
            ("chat-20260720.db", 300),
            ("outro.db", 50),
        ],
    );
    let alvo = old_backups(&paths(&dir));
    assert_eq!(alvo.len(), 2);
    let freed = remove_all(&mut dir, &alvo);
    assert_eq!(freed, Freed { files: 2, bytes: 300 });
    assert!(present(&dir, "backups/chat-20260720.db"), "o backup mais recente sumiu");
    assert!(present(&dir, "backups/outro.db"), "mexemos em arquivo que não é nosso");
}

#[test]
fn backup_unico_nao_e_apagado() {
    let dir = folder("backup-unico", &[("chat-20260720.db", 100)]);
    assert!(old_backups(&paths(&dir)).is_empty(), "o único backup foi pra lista de apagar");
}

#[test]
fn old_backups_come_oldest_first_whatever_the_listing_order() {
    let files = vec![
        "b/chat-20260720.db".to_string(),
        "b/chat-20260718.db".to_string(),
        "b/chat-20260719.db".to_string(),
    ];
    assert_eq!(
        old_backups(&files),
        vec!["b/chat-20260718.db".to_string(), "b/chat-20260719.db".to_string()]
    );
    // the name is matched in any case
    assert_eq!(old_backups(&["CHAT-1.DB".to_string(), "chat-2.db".to_string()]).len(), 1);
}

#[test]
fn pastas_inexistentes_nao_sao_erro() {
    assert_eq!(tally(&[]), Freed::default());
    assert!(old_backups(&[]).is_empty());
    assert!(orphan_avatars(&[], &[]).is_empty());
    assert!(orphan_attachments(&[], &Vec::new()).is_empty());
    assert_eq!(sum_len(&[]), 0);
}

#[test]
fn limpezas_sao_idempotentes() {
    let mut dir = folder("idempotente", &[("1_a.png", 100)]);
    let used = Vec::new();
    let first = orphan_attachments(&paths(&dir), &used);
    assert_eq!(remove_all(&mut dir, &first), Freed { files: 1, bytes: 100 });
    let second = orphan_attachments(&paths(&dir), &used);
    assert_eq!(remove_all(&mut dir, &second), Freed::default());
}

#[test]
fn only_confirmed_removals_count() {
    let freed = tally(&[(true, 10), (false, 999), (true, 5)]);
    assert_eq!(freed, Freed { files: 2, bytes: 15 });
    assert_eq!(sum_len(&[1, 2, 3, 40]), 46);
}
