use taylorchat::notify::{should_notify, NotifyDecision, NotifyInput, SkipReason};

/// Would notify: app on, window not focused, no conversation open.
fn base<'a>() -> NotifyInput<'a> {
    NotifyInput {
        enabled: true,
        focused: false,
        active_convo: None,
        incoming_convo: "abc",
        muted: false,
    }
}

#[test]
fn janela_fora_de_foco_notifica() {
    assert_eq!(should_notify(base()), NotifyDecision::Show);
}

#[test]
fn foco_na_mesma_conversa_cala() {
    let i = NotifyInput { focused: true, active_convo: Some("abc"), ..base() };
    assert_eq!(should_notify(i), NotifyDecision::Skip(SkipReason::AlreadyWatching));
}

#[test]
fn foco_em_outra_conversa_notifica() {
    let i = NotifyInput { focused: true, active_convo: Some("xyz"), ..base() };
    assert_eq!(should_notify(i), NotifyDecision::Show);
}

#[test]
fn conversa_aberta_sem_foco_notifica() {
    let i = NotifyInput { focused: false, active_convo: Some("abc"), ..base() };
    assert_eq!(should_notify(i), NotifyDecision::Show);
}

#[test]
fn desligado_nunca_notifica() {
    let i = NotifyInput { enabled: false, ..base() };
    assert_eq!(should_notify(i), NotifyDecision::Skip(SkipReason::Disabled));
}

#[test]
fn contato_silenciado_nao_notifica() {
    let i = NotifyInput { muted: true, ..base() };
    assert_eq!(should_notify(i), NotifyDecision::Skip(SkipReason::Muted));
}

#[test]
fn desligado_vence_mudo() {
    let i = NotifyInput { enabled: false, muted: true, ..base() };
    assert_eq!(should_notify(i), NotifyDecision::Skip(SkipReason::Disabled));
}

#[test]
fn mudo_vence_ja_estou_vendo() {
    let i = NotifyInput {
        muted: true,
        focused: true,
        active_convo: Some("abc"),
        ..base()
    };
    assert_eq!(should_notify(i), NotifyDecision::Skip(SkipReason::Muted));
}

#[test]
fn thread_diferente_do_mesmo_contato_notifica() {
    let i = NotifyInput {
        focused: true,
        active_convo: Some("abc"),
        incoming_convo: "abc#trabalho",
        ..base()
    };
    assert_eq!(should_notify(i), NotifyDecision::Show);
}

#[test]
fn principal_chegando_com_thread_aberta_notifica() {
    let i = NotifyInput {
        focused: true,
        active_convo: Some("abc#trabalho"),
        incoming_convo: "abc",
        ..base()
    };
    assert_eq!(should_notify(i), NotifyDecision::Show);
}

#[test]
fn shown_only_when_on_unmuted_and_not_watching() {
    for enabled in [false, true] {
        for muted in [false, true] {
            for focused in [false, true] {
                for active in [None, Some("abc"), Some("xyz")] {
                    let i = NotifyInput {
                        enabled,
                        focused,
                        active_convo: active,
                        incoming_convo: "abc",
                        muted,
                    };
                    let watching = focused && active == Some("abc");
                    let shown = should_notify(i) == NotifyDecision::Show;
                    assert_eq!(shown, enabled && !muted && !watching);
                }
            }
        }
    }
}
