# ClipSync

ClipSync keeps the clipboards of a user's devices in step: text, images and files. Devices on the
same network find each other by mDNS, pair once under a short code, and then talk directly over an
encrypted connection. Devices in different networks are joined through a server that relays sealed
messages.

## Layout

- `src/` is the library: everything that decides. It is written in Verus, and every function states
  in its contract what it returns or changes.
- `tests/` runs the library on concrete values.
- `app/` is the program around it: clipboard, files, sockets, key store, log. It reads and writes,
  and asks the library what to do.

## The modules of the library

| Module | What it holds |
|---|---|
| `clipboard` | the content of a clipboard, lists of file addresses, Windows drop lists |
| `sync` | which changes are sent, which are echoes, and which of two wins |
| `transfer` | frames, the pairing handshake, relaying, offers and fetches of files |
| `server_conn` | the connection to the server, the routes to far devices, fetching from them |
| `file_share`, `file_server` | files that this device hands out, and to whom |
| `received` | the bound on offers that wait |
| `discovery` | devices on the local network, and addresses that the user typed |
| `device` | this device's identity, paired devices, their secrets |
| `crypto` | sealing, key derivation, the pairing code, the key store's bookkeeping |
| `config`, `startup`, `commands` | settings, how they are kept, and what commands do with them |
| `tray` | the icon in the tray, its menu, and the talk about an update |
| `update` | versions, where packages may come from, and which may be started |
| `cache` | the cache of fetched files |
| `log_viewer`, `obs` | following the log |
| `text`, `bytes`, `strmap`, `encoding`, `fingerprint`, `ids`, `clock` | what the others are made of |

## What is proved and what is taken on trust

Contracts speak of sequences, maps and sets. Where a promise joins several functions it stands as a
public proof function whose name begins with `law_`.

Ciphers, hashes, the key exchange, base64, the clock, random numbers and the LRU cache are called,
not rebuilt. Each such call stands in a small function whose doc comment names what it calls and what
is believed of it.
