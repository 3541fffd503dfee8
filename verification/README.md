# securum_exire

Securum Exire keeps credentials from leaking in HTTP responses. A scanner
collects the credentials found in `.env` files; a guard service checks every
response payload it is shown against them, refuses the leaking ones, reports
them to a signal server, and keeps a list of blocked endpoints.

`src/` is the verified library (Verus):

- `text`, `hex`, `string_map`: text operations, hexadecimal encoding, and the
  ordered string map that holds credentials;
- `env_file`: parsing `.env` files and the output of `find`;
- `json`: reading and writing credential files;
- `digest`: SHA-256 and MD5 fingerprints;
- `config`: choosing and checking the configuration section;
- `leak_model`, `leak_check`, `leak_task`: the leak record, the payload check,
  and the reporting task's decisions;
- `endpoints`: the key-value store keys of blocked endpoints and leak
  records, and the statuses the handlers answer with.

`app/` is the program around it: the HTTP server (actix-web, Redis, reqwest),
the configuration file, the file watcher, and the scanner's command line.
