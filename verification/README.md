# http_downloader

Downloads a file over HTTP by several connections, each of which fetches one chunk at a time. A
download can be cancelled, go on later from an archive, be limited in its speed, and have its number
of connections and the size of its chunks changed while it goes on.

`src/` is the library, verified with Verus. It decides: which chunk comes next, what is asked for,
counted, kept and written, when to try again, and how a download begins and ends. It does no I/O: it
is told what happened, and says what to do next. `app/` runs it on tokio and reqwest.

- `chunk_iterator`: how a file is cut into chunks
- `chunk_item`: the download of one chunk
- `chunk_manager`: which connection fetches which chunk
- `progress`: what holds of every download by chunks; every byte comes once
- `file_content`: what is in the file; a finished download leaves all of it
- `download_way`: downloads from servers that do not serve ranges
- `downloader`, `downloader_builder`: how a download is set up, requested, begun and ended
- `extensions`: resuming, speed limit, speed and status
- `header_fields`, `paths`: what is taken from the `headers` crate and from `std::path`
- `spans`, `sorting`: counting and ordering of ranges

What the library promises of all downloads is stated by the proof functions whose names begin with
`law_`.
