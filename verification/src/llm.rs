//! The local AI runtime (a `llama-server` on 127.0.0.1): which files are
//! models, how the server is started, and what its status reports.

use vstd::prelude::*;
use crate::json::opt_text;
use crate::order::texts;
use crate::storage::{file_name, path_file_name};
use crate::text::{
    all_digits, chars_of, decimal, decimal_string, digits_value, lemma_decimal_reads_back, lower,
    owned, signed_decimal, signed_decimal_string, starts_with, to_lower,
};

verus! {

/// What the settings panel shows of the AI runtime.
pub struct LlmStatus {
    pub running: bool,
    pub port: u16,
    pub model: String,
}

/// The status of the runtime: it runs while its process has not exited
/// (`child_alive` is `None` when no process was started).
pub fn llm_status(child_alive: Option<bool>, port: u16, model: &str) -> (r: LlmStatus)
    ensures
        r.running == (child_alive == Some(true)),
        r.port == port,
        r.model@ == model@,
{
    let running = match child_alive {
        Some(alive) => alive,
        None => false,
    };
    LlmStatus { running, port, model: owned(model) }
}

/// The port the runtime prefers, and the last one of the range it falls back on.
pub const FIRST_PORT: u16 = 8103;

pub const LAST_PORT: u16 = 8123;

/// The command line of `llama-server` for a model, a port, the layers put
/// on the GPU and the context size; the web UI is off.
pub open spec fn llama_args(model_path: Seq<char>, port: u16, n_gpu_layers: i32, ctx_size: u32) -> Seq<
    Seq<char>,
> {
    seq![
        "--model"@,
        model_path,
        "--host"@,
        "127.0.0.1"@,
        "--port"@,
        decimal(port as nat),
        "-ngl"@,
        signed_decimal(n_gpu_layers as int),
        "-c"@,
        decimal(ctx_size as nat),
        "--no-webui"@,
    ]
}

/// The runtime is started on the model, the port and the context size asked
/// for, whatever their values: the argument after `--model` is the path, and
/// the ones after `--port` and `-c` are runs of digits that read back as the
/// port and the context size (no size is capped or changed), the one after
/// `-ngl` reads back as the layers (with a `-` when negative), and the server
/// listens on 127.0.0.1 with its web UI off.
pub proof fn lemma_llama_args_as_asked(
    model_path: Seq<char>,
    port: u16,
    n_gpu_layers: i32,
    ctx_size: u32,
)
    ensures
        llama_args(model_path, port, n_gpu_layers, ctx_size).len() == 11,
        llama_args(model_path, port, n_gpu_layers, ctx_size)[0] == "--model"@,
        llama_args(model_path, port, n_gpu_layers, ctx_size)[1] == model_path,
        llama_args(model_path, port, n_gpu_layers, ctx_size)[4] == "--port"@,
        all_digits(llama_args(model_path, port, n_gpu_layers, ctx_size)[5]),
        digits_value(llama_args(model_path, port, n_gpu_layers, ctx_size)[5]) == port,
        llama_args(model_path, port, n_gpu_layers, ctx_size)[8] == "-c"@,
        all_digits(llama_args(model_path, port, n_gpu_layers, ctx_size)[9]),
        digits_value(llama_args(model_path, port, n_gpu_layers, ctx_size)[9]) == ctx_size,
        llama_args(model_path, port, n_gpu_layers, ctx_size)[2] == "--host"@,
        llama_args(model_path, port, n_gpu_layers, ctx_size)[3] == "127.0.0.1"@,
        llama_args(model_path, port, n_gpu_layers, ctx_size)[6] == "-ngl"@,
        n_gpu_layers >= 0 ==> all_digits(llama_args(model_path, port, n_gpu_layers, ctx_size)[7])
            && digits_value(llama_args(model_path, port, n_gpu_layers, ctx_size)[7])
            == n_gpu_layers,
        n_gpu_layers < 0 ==> llama_args(model_path, port, n_gpu_layers, ctx_size)[7][0] == '-'
            && all_digits(llama_args(model_path, port, n_gpu_layers, ctx_size)[7].drop_first())
            && digits_value(llama_args(model_path, port, n_gpu_layers, ctx_size)[7].drop_first())
            == -n_gpu_layers,
        llama_args(model_path, port, n_gpu_layers, ctx_size)[10] == "--no-webui"@,
{
    lemma_decimal_reads_back(port as nat);
    lemma_decimal_reads_back(ctx_size as nat);
    if n_gpu_layers < 0 {
        lemma_decimal_reads_back((-n_gpu_layers) as nat);
        assert((seq!['-'] + decimal((-n_gpu_layers) as nat)).drop_first() =~= decimal(
            (-n_gpu_layers) as nat,
        ));
    } else {
        lemma_decimal_reads_back(n_gpu_layers as nat);
    }
}

/// The arguments that start the runtime.
pub fn llama_server_args(model_path: &str, port: u16, n_gpu_layers: i32, ctx_size: u32) -> (r: Vec<
    String,
>)
    ensures
        texts(r@) == llama_args(model_path@, port, n_gpu_layers, ctx_size),
{
    let mut v: Vec<String> = Vec::new();
    v.push(owned("--model"));
    v.push(owned(model_path));
    v.push(owned("--host"));
    v.push(owned("127.0.0.1"));
    v.push(owned("--port"));
    v.push(decimal_string(port as u64));
    v.push(owned("-ngl"));
    v.push(signed_decimal_string(n_gpu_layers as i64));
    v.push(owned("-c"));
    v.push(decimal_string(ctx_size as u64));
    v.push(owned("--no-webui"));
    assert(texts(v@) =~= llama_args(model_path@, port, n_gpu_layers, ctx_size));
    v
}

/// `Path::extension` of a path, as text: what follows the last dot of its
/// file name, when the name has a dot that does not start it.
pub uninterp spec fn path_ext(p: Seq<char>) -> Option<Seq<char>>;

/// `Path::new(p).extension()`, as text.
#[verifier::external_body]
fn extension_of(p: &str) -> (r: Option<String>)
    ensures
        opt_text(r) == path_ext(p@),
{
    std::path::Path::new(p).extension().map(|e| e.to_string_lossy().into_owned())
}

/// A model file: its extension is `gguf`, in any case of ASCII letters.
pub open spec fn is_model_path(p: Seq<char>) -> bool {
    match path_ext(p) {
        Some(e) => e.len() == 4 && (e[0] == 'g' || e[0] == 'G') && (e[1] == 'g' || e[1] == 'G')
            && (e[2] == 'u' || e[2] == 'U') && (e[3] == 'f' || e[3] == 'F'),
        None => false,
    }
}

/// Is this file a model (`*.gguf`)?
pub fn is_model_file(path: &str) -> (r: bool)
    ensures
        r == is_model_path(path@),
{
    match extension_of(path) {
        Some(e) => {
            let cs = chars_of(e.as_str());
            if cs.len() != 4 {
                false
            } else {
                let a = cs[0];
                let b = cs[1];
                let c = cs[2];
                let d = cs[3];
                (a == 'g' || a == 'G') && (b == 'g' || b == 'G') && (c == 'u' || c == 'U') && (d
                    == 'f' || d == 'F')
            }
        },
        None => false,
    }
}

/// A projector (the vision part of a model) is named `mmproj*`, in any case.
pub open spec fn is_projector_path(p: Seq<char>) -> bool {
    "mmproj"@.is_prefix_of(
        lower(
            match path_file_name(p) {
                Some(n) => n,
                None => Seq::empty(),
            },
        ),
    )
}

/// Is this model file a projector?
pub fn is_projector(path: &str) -> (r: bool)
    ensures
        r == is_projector_path(path@),
{
    let name = match file_name(path) {
        Some(n) => n,
        None => String::new(),
    };
    let l = to_lower(name.as_str());
    starts_with(l.as_str(), "mmproj")
}

/// Model `a` comes before model `b`: it is smaller, or as large and listed
/// first.
pub open spec fn comes_before(sizes: Seq<u64>, a: usize, b: usize) -> bool {
    sizes[a as int] < sizes[b as int] || (sizes[a as int] == sizes[b as int] && a < b)
}

/// The order in which the models are shown: by size, smallest first, models
/// of equal size in the order they were found. The result holds each index of
/// `sizes` once.
pub fn models_by_size(sizes: &[u64]) -> (r: Vec<usize>)
    ensures
        r@.len() == sizes@.len(),
        forall|i: int| 0 <= i < r@.len() ==> r@[i] < sizes@.len(),
        forall|i: int, j: int|
            0 <= i < j < r@.len() ==> comes_before(sizes@, #[trigger] r@[i], #[trigger] r@[j]),
        forall|k: usize| k < sizes@.len() ==> r@.contains(k),
{
    let mut out: Vec<usize> = Vec::new();
    let mut i: usize = 0;
    while i < sizes.len()
        invariant
            i <= sizes.len(),
            out@.len() == i,
            forall|a: int| 0 <= a < out@.len() ==> out@[a] < i,
            forall|a: int, b: int|
                0 <= a < b < out@.len() ==> comes_before(sizes@, #[trigger] out@[a], #[trigger] out@[b]),
            forall|k: usize| k < i ==> out@.contains(k),
        decreases sizes.len() - i,
    {
        let mut p: usize = 0;
        while p < out.len() && sizes[out[p]] <= sizes[i]
            invariant
                i < sizes.len(),
                p <= out@.len(),
                forall|a: int| 0 <= a < out@.len() ==> out@[a] < i,
                forall|a: int| 0 <= a < p ==> sizes@[out@[a] as int] <= sizes@[i as int],
            decreases out@.len() - p,
        {
            p += 1;
        }
        proof {
            assert forall|a: int| p <= a < out@.len() implies sizes@[i as int] < sizes@[out@[a] as int] by {
                if a > p {
                    assert(comes_before(sizes@, out@[p as int], out@[a]));
                }
            }
        }
        let ghost before = out@;
        out.insert(p, i);
        proof {
            before.insert_ensures(p as int, i);
            assert forall|a: int, b: int| 0 <= a < b < out@.len() implies comes_before(
                sizes@,
                #[trigger] out@[a],
                #[trigger] out@[b],
            ) by {
                if a < p && b < p {
                    assert(out@[a] == before[a] && out@[b] == before[b]);
                } else if a < p && b == p {
                    assert(out@[a] == before[a]);
                } else if a < p {
                    assert(out@[a] == before[a] && out@[b] == before[b - 1]);
                } else if a == p {
                    assert(out@[b] == before[b - 1]);
                } else {
                    assert(out@[a] == before[a - 1] && out@[b] == before[b - 1]);
                }
            }
            assert forall|k: usize| k < i + 1 implies out@.contains(k) by {
                if k == i {
                    assert(out@[p as int] == k);
                } else {
                    assert(before.contains(k));
                    let j = choose|j: int| 0 <= j < before.len() && before[j] == k;
                    if j < p {
                        assert(out@[j] == k);
                    } else {
                        assert(out@[j + 1] == k);
                    }
                }
            }
            assert forall|a: int| 0 <= a < out@.len() implies out@[a] < i + 1 by {
                if a < p {
                    assert(out@[a] == before[a]);
                } else if a > p {
                    assert(out@[a] == before[a - 1]);
                }
            }
        }
        i += 1;
    }
    out
}

} // verus!
