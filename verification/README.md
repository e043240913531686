# rust_request

A service that lists the latest releases of the artists a Spotify user
saves most often, and reports the list to a job table.

- `src/` is the verified library: request URLs and form encoding (`urls`,
  `request`, `auth`), the JSON mirror and its lookups (`json`), the artist
  tally (`artists`), release dates (`dates`, `tracks`), the report
  (`report`), the job table items (`db`) and decimal text (`text`).
- `app/` runs the service: HTTP with reqwest, the DynamoDB client, the local
  login server (`--browser-init`), and the serde shapes of the responses.
  It expects a `conf.json` with `client_id` and `client_secret` in the
  working directory.
