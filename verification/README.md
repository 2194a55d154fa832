# yara_on_map

A page scanner for mapped process memory that runs YARA on newly mapped
pages, caches page digests, and can quarantine matching pages.

- `src/` is the verified library: configuration checks (`config`), the page
  digest cache and the page walk of a region and
  the per-page decisions of a live process scan (`pager`), metrics rendering
  and the metrics endpoint's answers (`metrics`), the meaning of `yara`
  output (`engine`), process id, address and hex parsing (`cli`), socket
  address recognition (`sockaddr`), the replay state machine (`replay`),
  task building (`watcher`), the refusal of output paths under
  system directories (`paths`) and the text routines they share (`text`).
- `app/` is the `yom` program: command line, files, processes, HTTP, threads
  and the Windows memory calls, which hand plain values to the library.
- `tests/` exercises the library.
