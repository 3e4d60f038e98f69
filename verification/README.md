# stockbit_chatbot

A chatbot service: an HTTP endpoint that streams a local language model's
answer to the browser, a Telegram bot that polls for messages and answers
them (echoing them, or turning them into trading orders), and web push
notifications.

- `src/` is the verified library: parsing of HTTP responses, building of the
  requests the service sends, routing of incoming requests, the scanner that
  picks the generated text out of the model's streamed JSON, and the decisions
  of the Telegram bot. Every function carries a contract that Verus proves.
- `app/` is the program around it: configuration from the environment,
  sockets and TLS, JSON (de)serialisation with serde, web push, and the
  polling loop.
- `tests/` runs the library on concrete values.
