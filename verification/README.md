# o2a

Generates one bash/curl script per path and method of an OpenAPI JSON document, plus a
shared `.config.sh` that declares `BASE_URL` and an empty variable for every header the
scripts send.

- `src/` is the verified library: the JSON model and its parse (`json`), the
  decoding of parameters and security schemes (`openapi`), the document's server and
  paths (`document`), the configuration text (`config`), the script text (`script`), the
  folder layout (`path`), and the plan of all files to write (`generator`).
- `app/` is the command-line program: it reads the file, asks the library for the plan and
  writes the files under `generated/`.
- `tests/` runs the library on concrete documents.
