# jukebox

A self-hosted networked jukebox: listeners search YouTube from a web page
on the local network and queue songs, which are downloaded with yt-dlp,
converted with ffmpeg and played on the host's audio output.

Layout:

- `src/` — the verified core (Verus): reading durations, filtering search
  answers, reading the InnerTube settings of the YouTube front page,
  framing the search request, the request and download queues and the
  queue worker's decisions, file locations, platform downloads, taking
  ffmpeg out of its zip or `.tar.xz` archive, and drawing the QR code of
  the address as a PNG picture.
- `tests/` — tests of the core on concrete values.
- `app/` — the program around it: the web server and its handlers, HTTP
  requests, the file system, running yt-dlp, mDNS and audio output.
