use taylorchat::llm::{is_model_file, is_projector, llama_server_args, llm_status, models_by_size};

#[test]
fn server_arguments() {
    let args = llama_server_args("/m/qwen.gguf", 8103, -1, 4096);
    assert_eq!(
        args,
        vec![
            "--model", "/m/qwen.gguf", "--host", "127.0.0.1", "--port", "8103", "-ngl", "-1",
            "-c", "4096", "--no-webui",
        ]
    );
}

#[test]
fn model_files() {
    assert!(is_model_file("/m/a/qwen.gguf"));
    assert!(is_model_file("C:/m/Qwen.GGUF"));
    assert!(!is_model_file("/m/a/qwen.bin"));
    assert!(!is_model_file("/m/.gguf"));
    assert!(!is_model_file("/m/gguf"));
    assert!(is_projector("/m/MMPROJ-qwen.gguf"));
    assert!(!is_projector("/m/qwen-mmproj.gguf"));
}

#[test]
fn status() {
    let s = llm_status(Some(true), 8104, "/m/a.gguf");
    assert!(s.running);
    assert_eq!((s.port, s.model.as_str()), (8104, "/m/a.gguf"));
    assert!(!llm_status(Some(false), 8104, "x").running);
    assert!(!llm_status(None, 0, "").running);
}

#[test]
fn models_come_smallest_first_and_ties_keep_their_order() {
    assert_eq!(models_by_size(&[30, 10, 20, 10]), vec![1, 3, 2, 0]);
    assert_eq!(models_by_size(&[]), Vec::<usize>::new());
    assert_eq!(models_by_size(&[5, 5, 5]), vec![0, 1, 2]);
}
