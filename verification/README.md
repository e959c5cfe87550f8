# synth

A web research service: it searches the web, extracts content from what it
finds (web pages, PDFs, GitHub repositories, images, audio, video), has a
language model analyse each source, and synthesises an answer with sources.
It serves a REST API and an MCP (JSON-RPC) endpoint.

## Layout

- `src/` — the library, verified with Verus: query expansion and relevance
  scoring, hit ranking, URL safety checks, extractor routing and the cache
  policy, the cache's file layout and expiry, the crawler's frontier, what is
  read out of HTML pages, the DuckDuckGo and SearXNG result handling, YouTube
  listing parsing, prompts and the reading of model answers, the repository
  tree and file selection, the MCP routing and tool catalog, the search
  pipeline's stage decisions and text answers, and the service settings.
- `tests/` — tests of the library.
- `app/` — the service around the library: HTTP servers, network and file
  I/O, external programs, the full-text index and the embedding store.

## Configuration

`ANTHROPIC_API_KEY` and `SYNTH_MODEL` (the identifier of the model to call)
are required. Optional: `OPENAI_API_KEY` (transcription, embeddings), `PORT`
(8765), `MCP_PORT` (8766), `SYNTH_MCP_HOST` (127.0.0.1), `INDEX_PATH`
(`./index`), `CACHE_TTL_SECONDS` (86400), `SEARXNG_URL`
(`http://localhost:8888`).
