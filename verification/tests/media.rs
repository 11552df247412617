use taylorchat::crypto::{decrypt, derive_key, encrypt};
use taylorchat::media::{
    attachment_name, avatar_png, base_name_of, compress, contact_avatar_file_name, decompress, guess_mime, open_chunk,
    partial_file_name, sanitize, seal_chunk, stamped_file_name,
};
use taylorchat::storage::avatar_name_of;

#[test]
fn pipeline_comprime_cifra_decifra_descomprime() {
    // Repetitive data compresses well.
    let data = b"anexo do TaylorChat ".repeat(500);
    let comp = compress(&data).unwrap();
    assert!(comp.len() < data.len(), "zstd deveria reduzir dado repetitivo");

    // Compressed, sealed with a one-time key, opened, decompressed.
    let key = derive_key(&[5u8; 32]);
    let ct = encrypt(&key, &comp).unwrap();
    let back = decrypt(&key, &ct).unwrap();
    assert_eq!(decompress(&back).unwrap(), data);
}

#[test]
fn streaming_multi_chunk_reconstroi_o_arquivo() {
    let file: Vec<u8> = (0..250_000u32).flat_map(|i| i.to_le_bytes()).collect();
    let key = derive_key(&[9u8; 32]);
    let chunk = 64 * 1024;

    let mut out = Vec::new();
    for part in file.chunks(chunk) {
        let enc = encrypt(&key, &compress(part).unwrap()).unwrap();
        let dec = decompress(&decrypt(&key, &enc).unwrap()).unwrap();
        out.extend_from_slice(&dec);
    }
    assert_eq!(out, file);
}

#[test]
fn retomada_reconstroi_apos_queda_no_meio() {
    let file: Vec<u8> = (0..300_000u32).flat_map(|i| i.to_le_bytes()).collect();
    let key = derive_key(&[3u8; 32]);
    let chunk = 64 * 1024;
    let chunks: Vec<&[u8]> = file.chunks(chunk).collect();

    // First attempt: only the first 2 chunks arrive, then the link drops.
    let mut received: Vec<u8> = Vec::new();
    for part in chunks.iter().take(2) {
        let enc = encrypt(&key, &compress(part).unwrap()).unwrap();
        received.extend_from_slice(&decompress(&decrypt(&key, &enc).unwrap()).unwrap());
    }
    // Resume: align to the chunk boundary and go on from there.
    let from = received.len() / chunk;
    received.truncate(from * chunk);
    for part in chunks.iter().skip(from) {
        let enc = encrypt(&key, &compress(part).unwrap()).unwrap();
        received.extend_from_slice(&decompress(&decrypt(&key, &enc).unwrap()).unwrap());
    }
    assert_eq!(received, file);
}

#[test]
fn mime_por_extensao() {
    assert_eq!(guess_mime("foto.PNG"), "image/png");
    assert_eq!(guess_mime("doc.pdf"), "application/pdf");
    assert_eq!(guess_mime("qualquer.xyz"), "application/octet-stream");
}

#[test]
fn mime_of_every_known_extension() {
    assert_eq!(guess_mime("a.jpg"), "image/jpeg");
    assert_eq!(guess_mime("a.JPEG"), "image/jpeg");
    assert_eq!(guess_mime("a.gif"), "image/gif");
    assert_eq!(guess_mime("a.webp"), "image/webp");
    assert_eq!(guess_mime("a.svg"), "image/svg+xml");
    assert_eq!(guess_mime("notas.txt"), "text/plain");
    assert_eq!(guess_mime("LEIAME.md"), "text/plain");
    assert_eq!(guess_mime("v.mp4"), "video/mp4");
    assert_eq!(guess_mime("m.mp3"), "audio/mpeg");
    assert_eq!(guess_mime("pacote.tar.zip"), "application/zip");
    // no dot: the whole name is taken as the extension
    assert_eq!(guess_mime("png"), "image/png");
    assert_eq!(guess_mime("semextensao"), "application/octet-stream");
}

#[test]
fn chunks_seal_and_open_back() {
    let key = derive_key(&[2u8; 32]);
    let data = b"pedaco de arquivo ".repeat(100);
    let frame = seal_chunk(&key, &data).unwrap();
    assert_eq!(open_chunk(&key, &frame).unwrap(), data);
    let other = derive_key(&[3u8; 32]);
    assert_eq!(
        open_chunk(&other, &frame).err().unwrap(),
        "falha ao decifrar (chave errada ou dado corrompido)"
    );
    let mut tampered = frame.clone();
    let last = tampered.len() - 1;
    tampered[last] ^= 0x80;
    assert_eq!(
        open_chunk(&key, &tampered).err().unwrap(),
        "falha ao decifrar (chave errada ou dado corrompido)"
    );
    assert_eq!(open_chunk(&key, &[1, 2, 3]).err().unwrap(), "dado cifrado curto demais");
    // a frame that opens but is not zstd is refused by the decompressor
    let not_zstd = encrypt(&key, b"texto cru").unwrap();
    assert!(open_chunk(&key, &not_zstd).err().unwrap().starts_with("falha ao descomprimir: "));
}

#[test]
fn garbage_does_not_decompress() {
    let err = decompress(b"isto nao e zstd").err().unwrap();
    assert!(err.starts_with("falha ao descomprimir"), "{err}");
}

#[test]
fn names_of_files() {
    assert_eq!(base_name_of("C:\\fotos\\praia.png"), "praia.png");
    assert_eq!(base_name_of("/home/u/doc.pdf"), "doc.pdf");
    assert_eq!(base_name_of("solto.txt"), "solto.txt");
    assert_eq!(stamped_file_name(1700000000123, "/x/y/foto.png"), "1700000000123_foto.png");
    assert_eq!(sanitize(" Meu Pacote! "), "Meu Pacote");
    assert_eq!(sanitize("a-b_c"), "a-b_c");
    assert_eq!(sanitize("!!!"), "geral");
}

#[test]
fn avatar_file_names_agree_between_saving_and_cleaning() {
    assert_eq!(contact_avatar_file_name("abc-123"), "abc123.png");
    assert_eq!(avatar_name_of("abc-123"), "abc123.png");
    assert_eq!(contact_avatar_file_name(""), ".png");
}

#[test]
fn partial_names_refuse_odd_transfer_ids() {
    assert_eq!(partial_file_name("abc123").unwrap(), "abc123");
    assert_eq!(partial_file_name("../fora").unwrap(), "fora");
    assert_eq!(partial_file_name("").err().unwrap(), "id de transferência inválido");
    assert_eq!(partial_file_name("../..").err().unwrap(), "id de transferência inválido");
}

#[test]
fn attachments_are_sent_under_their_file_name() {
    assert_eq!(attachment_name("/home/u/fotos/praia.png"), "praia.png");
    assert_eq!(attachment_name("/"), "arquivo");
    assert_eq!(attachment_name("x/.."), "arquivo");
}

fn png_of(width: u32, height: u32) -> Vec<u8> {
    let img = image::DynamicImage::ImageRgb8(image::RgbImage::new(width, height));
    let mut out = std::io::Cursor::new(Vec::new());
    img.write_to(&mut out, image::ImageFormat::Png).unwrap();
    out.into_inner()
}

#[test]
fn avatar_is_fitted_into_128_px_as_png() {
    let png = avatar_png(&png_of(300, 200)).unwrap();
    assert!(png.starts_with(b"\x89PNG"));
    let img = image::load_from_memory(&png).unwrap();
    assert_eq!((img.width(), img.height()), (128, 85));
}

#[test]
fn avatar_of_a_small_image_is_scaled_up() {
    let png = avatar_png(&png_of(16, 32)).unwrap();
    let img = image::load_from_memory(&png).unwrap();
    assert_eq!((img.width(), img.height()), (64, 128));
}

#[test]
fn avatar_of_bytes_that_are_no_image_is_refused() {
    let err = avatar_png(b"not an image at all").unwrap_err();
    assert!(err.starts_with("imagem inválida: "), "{err}");
}
