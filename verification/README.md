# taylorchat

The verified core of TaylorChat, a peer-to-peer desktop messenger: a Verus
library (`src/`) with the logic of the app stated in contracts and proved, a
test suite (`tests/`), and the Tauri app around it (`app/`).

## src/

| module     | what it holds |
|------------|---------------|
| `text`     | strings as sequences of characters: white space, trimming, lower case, UTF-8, decimals |
| `order`    | the order of texts and a sort proved to give `Seq::sort_by` |
| `identity` | the ed25519 identity, its vault form (base64) and its hex node id |
| `crypto`   | the at-rest key (HKDF-SHA256), XChaCha20-Poly1305 blobs `nonce ‖ ciphertext`, digests |
| `pairing`  | invites (`taylorchat:<hex>`) and their QR code |
| `notify`   | whether a message raises a desktop notification |
| `json`     | one field of a JSON text |
| `wire`     | the JSON frames, headers and envelopes of the protocol, written and read |
| `net`      | conversation keys, frame lengths, resumption of transfers, the network log, presence |
| `ratchet`  | the Olm double ratchet (vodozemac) and the wire form of its messages |
| `media`    | chunk compression and sealing, my avatar's thumbnail, MIME types, file names |
| `db`       | what the history's rows become: pages, search hits, previews, the audit digest |
| `storage`  | what the storage cleanings may delete, and what they freed |
| `dates`    | civil dates and the rotation of the daily backups |
| `llm`      | the local AI runtime: model files, command line, status |

Calls into outside crates (base64, chacha20poly1305, ed25519-dalek, hkdf,
image, qrcode, rand, serde_json, sha2, vodozemac, zstd) and a few std functions go
through small wrappers whose contracts are trusted; everything else is proved.

## app/

The Tauri commands, SQLite (rusqlite), the file system, the OS vault (keyring),
the iroh network and the `llama-server` process. It hands plain values to the
library and takes plain values back.
