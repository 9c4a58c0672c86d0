# parakeet_crypto

Decryption of several music and lyric container formats, written in Verus:
every function of the library carries a contract, and Verus proves the code
against it.

- `src/qrc`: the modified DES of QRC lyric files (key schedule, block and
  byte transforms, proofs that decryption undoes encryption), the state of a
  reader that runs a stream through it, and the QRC decoder (three DES passes,
  then zlib).
- `src/kugou`: the Kugou header, the second and third cipher modes, the
  check of a header's test data against its challenge, and the decryptor
  keyed by slot keys.
- `src/tencent`: the QMC footer parser (plain, "QTag" and EncV2 keys), the
  QMCv2 map cipher, and the QMCv2 decryptor.
- `src/ximalaya`: the header scrambling of X2M/X3M files.
- `src/bytes.rs`, `src/sized_buffer.rs`, `src/interfaces.rs`: byte helpers,
  a small buffer and the shared error type.

Calls into `md-5`, `base64`, `tc_tea` and `flate2` stand behind a few
trusted wrappers whose contracts name what those crates compute.

Left out of this library, because their code is not part of its sources:
the QMCv2 RC4 cipher (for footer keys of more than 300 bytes), the QMCv1
static-map cipher, and Kugou's fourth mode (crypto version 4). The
functions that would reach them say so: `QMC2::decrypt` and
`QMC2::new_stream_decryptor` require a key of at most 300 bytes
(`QMC2::try_decrypt` returns `None` otherwise), and the Kugou cipher set-up
requires a header that does not name the fourth mode (`cipher_setup_ok`).

`app/` is the command-line tool around the library: argument parsing, file
I/O, and the QMC simple key, which is computed with floating point.
