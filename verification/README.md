# Ultimate Tic-Tac-Toe judge

A verified library for judging games of Ultimate Tic-Tac-Toe, with the web and
websocket servers around it.

- `src/game.rs`: the game (packed boards, move rules, board and game outcomes) and the
  laws that every move keeps.
- `src/protocol.rs`: the messages exchanged with players, and the unpacking of boards.
- `src/judge.rs`: the judge's decisions after each player reply.
- `src/api.rs`: what the web API answers for lobbies, game states and moves.
- `src/render.rs`: the board as text lines and the debugging report.
- `src/client.rs`: how the test client sorts a reply (empty, not UTF-8, not JSON, JSON).
- `app/`: the Rocket web server, the websocket judge and a test client; they move
  messages and call the library.
