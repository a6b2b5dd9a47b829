# record

Records of a private ledger, verified with Verus.

A record is a value, and perhaps a payload for a program, that belongs to an account. The ledger
holds its ciphertext and a commitment to that ciphertext.

- `src/record.rs`: making, opening and recovering records; serial numbers.
- `src/plaintext.rs`: the contents of a record as they are encrypted.
- `src/ciphertext.rs`: ciphertexts, their commitments, and which of them can be decrypted.
- `src/encoding.rs`: records as byte strings and on byte streams.
- `src/element.rs`, `src/account.rs`, `src/amount.rs`, `src/payload.rs`: what records are made of.
- `src/schemes.rs`: the calls into snarkVM, with what is taken of them on trust.
- `src/testnet2.rs`: the parameters of the network.
- `app/`: text, serde and byte streams around the library.
