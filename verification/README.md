# basic-snmp-agent

The core of an embeddable SNMPv3 agent, written in Verus: executable Rust whose
behaviour is stated in contracts and proved.

## What is verified

- **OIDs** (`codec::oid`): structure, lexicographic order, dotted-decimal text and parsing.
- **Values** (`codec::value`): the nine SMIv2 types of RFC 2578 and their text.
- **BER** (`codec::ber`): lengths, integers, sub-identifiers, the reader and the writer,
  varbinds, PDUs and SNMPv3 envelopes. `codec::ber::tlv` says what bytes stand for; every
  decoder is proved to return exactly that, with the exact message of each fault.
- **PDUs** (`codec::pdu`): decoding of inbound requests and messages, encoding of
  responses, traps and reports. Whatever an encoder writes, the decoder reads back.
- **MIB store** (`mib`): an ordered map from OIDs to values with GET and GETNEXT.
- **Agent rules** (`agent`): engine IDs, security configuration, trap varbinds.
- **Fuzzing** (`fuzz`, `seeds`): structured inputs and corpus seeds.

Functions named `law_...` are theorems about the library as a whole: round trips, order,
uniqueness of salts, where the authentication code stands in a message.

## Keys

The core never sees a secret key. A message that has to be encrypted or signed is encoded
in steps: `V3Encoding::Encrypt` states the initialisation vector and the plaintext and
takes the ciphertext; `V3Encoding::Sign` states the bytes to sign and takes the code.

## Layout

- `src/`: the verified library.
- `tests/`: its tests, some of them against the independent codec of `rasn`.
- `app/`: ordinary Rust around the library: sockets, threads, keys and files.
