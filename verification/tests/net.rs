use taylorchat::net::{
    content_kind, convo_key, file_preview, frame_header, frame_kind, frame_len, is_up, log_entry,
    log_lines, now_hms, presence_change, push_log, resend_step, resume_point, ResendAction,
    SendOutcome, split_convo, text_preview, ContentKind, FrameKind,
    CHUNK, LOG_CAP, MAX_FRAME,
};

#[test]
fn conversation_keys_split_and_join() {
    assert_eq!(split_convo("abc"), ("abc".to_string(), "".to_string()));
    assert_eq!(split_convo("abc#trabalho"), ("abc".to_string(), "trabalho".to_string()));
    assert_eq!(split_convo("abc#a#b"), ("abc".to_string(), "a#b".to_string()));
    assert_eq!(convo_key("abc", ""), "abc");
    assert_eq!(convo_key("abc", "trabalho"), "abc#trabalho");
    let (n, t) = split_convo("abc#trabalho");
    assert_eq!(convo_key(&n, &t), "abc#trabalho");
}

#[test]
fn frame_lengths_go_big_endian() {
    assert_eq!(frame_header(0x0102_0304), [1, 2, 3, 4]);
    assert_eq!(frame_len([0, 0, 1, 0]).unwrap(), 256);
    for len in [0usize, 1, 300, 65_536, MAX_FRAME] {
        assert_eq!(frame_len(frame_header(len)).unwrap(), len);
    }
    assert_eq!(frame_len(frame_header(MAX_FRAME + 1)).err().unwrap(), "frame grande demais");
}

#[test]
fn resumption_stays_on_chunk_boundaries() {
    assert_eq!(resume_point(0, 10 * CHUNK), (0, 0));
    assert_eq!(resume_point(2 * CHUNK + 17, 10 * CHUNK), (2, 2 * CHUNK));
    // a partial longer than the file is cut back to the file's last chunk
    assert_eq!(resume_point(5 * CHUNK, 2 * CHUNK + 1), (2, 2 * CHUNK));
}

#[test]
fn the_log_keeps_the_most_recent_lines() {
    assert_eq!(now_hms(3661), "01:01:01");
    assert_eq!(now_hms(86399), "23:59:59");
    assert_eq!(log_entry(0, "rede no ar"), "00:00:00 rede no ar");
    let mut log = Vec::new();
    for i in 0..(LOG_CAP + 5) {
        push_log(&mut log, format!("linha {i}"));
    }
    assert_eq!(log.len(), LOG_CAP);
    assert_eq!(log[0], "linha 5");
    assert_eq!(log_lines(&log).last().unwrap(), &format!("linha {}", LOG_CAP + 4));
}

#[test]
fn kinds_of_frames_and_contents() {
    assert_eq!(frame_kind(Some("ping")), FrameKind::Ping);
    assert_eq!(frame_kind(Some("req_prekey")), FrameKind::PrekeyRequest);
    assert_eq!(frame_kind(Some("msg")), FrameKind::Message);
    assert_eq!(frame_kind(Some("msg_prekey")), FrameKind::Unknown);
    assert_eq!(frame_kind(None), FrameKind::Unknown);
    assert_eq!(content_kind(Some("text")), ContentKind::Text);
    assert_eq!(content_kind(Some("file")), ContentKind::File);
    assert_eq!(content_kind(Some("read")), ContentKind::Read);
    assert_eq!(content_kind(Some("keyword")), ContentKind::Keyword);
    assert_eq!(content_kind(Some("profile")), ContentKind::Profile);
    assert_eq!(content_kind(Some("outro")), ContentKind::Unknown);
}

#[test]
fn notification_previews() {
    assert_eq!(text_preview(&"é".repeat(200)), "é".repeat(120));
    assert_eq!(text_preview("oi"), "oi");
    assert_eq!(file_preview("foto.png", false), "📎 foto.png");
    assert_eq!(file_preview("foto.png", true), "🎨 sticker");
}

#[test]
fn the_network_is_up_once_bound() {
    assert!(!is_up::<u8>(&None));
    assert!(is_up(&Some(())));
}

#[test]
fn presence_is_announced_only_when_it_changes() {
    let mut last = None;
    assert!(presence_change(&mut last, false));
    assert!(!presence_change(&mut last, false));
    assert!(presence_change(&mut last, true));
    assert!(!presence_change(&mut last, true));
    assert_eq!(last, Some(true));
}

#[test]
fn the_resend_loop_stops_at_the_first_message_that_cannot_go() {
    assert_eq!(resend_step(0, SendOutcome::Delivered), (1, ResendAction::MarkDelivered));
    assert_eq!(resend_step(1, SendOutcome::Unsendable), (1, ResendAction::MarkFailed));
    assert_eq!(resend_step(1, SendOutcome::NotSent), (1, ResendAction::Stop));
    let outcomes = [
        SendOutcome::Delivered,
        SendOutcome::Unsendable,
        SendOutcome::Delivered,
        SendOutcome::NotSent,
        SendOutcome::Delivered,
    ];
    let mut sent = 0;
    for o in outcomes {
        let (n, a) = resend_step(sent, o);
        sent = n;
        if a == ResendAction::Stop {
            break;
        }
    }
    assert_eq!(sent, 2);
}

#[test]
fn a_short_run_keeps_every_line() {
    let mut log = Vec::new();
    assert!(log_lines(&log).is_empty());
    push_log(&mut log, "a".to_string());
    push_log(&mut log, "b".to_string());
    assert_eq!(log_lines(&log), vec!["a".to_string(), "b".to_string()]);
}
