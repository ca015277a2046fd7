# cleat_fgo

Translation mod for Fate/Grand Order (JP), built on the `cleat` IL2CPP
hooking toolkit. The library in `src/` is verified with Verus; `app/` holds
the hooks, file reading and memory access around it.

- `src/bundle.rs` — the `.script` TextBundle format: header, entry table,
  per-entry Rijndael-256-CBC → zlib → UTF-16LE, and `ScriptBundle`.
- `src/crypto.rs` — CBC decryption over `simple_rijndael`'s block cipher and
  PKCS#7 unpadding, and `flate2` inflation.
- `src/newest.rs` — choosing the newest `<number>.script` file.
- `src/utf16.rs` — UTF-16LE decoding and encoding, strict and lossy.
- `src/obscured.rs` — the XOR scheme of the game's `ObscuredString`.
- `src/text.rs` — width folding and markup stripping of lookup keys.
- `src/translations.rs` — the Chaldea-format translation tables.
- `src/hooks.rs` — what each runtime hook decides.
