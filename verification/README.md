# apostle_client

A client for sending mail through a mail server that is described by a *bundle*:
an `.acai` container with the server's addresses, its pinned public key and,
where the bundle was issued to one identity, that identity's secret. A ledger
keeps the issued identities and what was sent under their names.

`src/` is the library. All of it is verified with Verus: what each function
returns stands in its `ensures`, and what holds across functions stands in the
public proof functions named `law_..`.

| module      | what it holds                                                        |
|-------------|----------------------------------------------------------------------|
| `email`     | messages, their JSON, and which destinations may be sent to          |
| `keys`      | the encoding of the server's public key                              |
| `container` | reading entries out of a container                                   |
| `digest`    | the hash of bytes                                                    |
| `bundle`    | what a bundle says, and the candidates it resolves to                |
| `delivery`  | the course of sending a message, step by step                        |
| `ledger`    | issued identities and their uses                                     |
| `worker`    | recording uses in the background, step by step                       |
| `issuance`  | the request that an issued bundle is built from                      |
| `json`, `order`, `text`, `error` | what the others share                           |

The library calls `serde_json` for string literals, `acai_core` to read and hash
containers, `colored` for terminal styles and `rand` for secrets. What is taken
for granted about each of these calls stands above the function that makes it.

`app/` is the client itself: files, sockets, name lookup and the SQLite database.
It carries out the steps that `delivery` and `worker` ask for and stores the rows
that `ledger` works on.
