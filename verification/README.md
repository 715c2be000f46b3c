# travel-map-app

A self-hosted travel map. Photographs with a position find their place by themselves, places are
grouped into trips, visitors leave hearts and messages, and everything can be backed up and
restored.

## Layout

- `src/` is the library: the rules of the site, in Verus. Each function states in its contract what
  it returns or changes, and the `law_…` proof functions state what holds of several together.
  - `model`, `json`, `text`, `codes`, `table`: the data and the primitives everything is written in
  - `places`, `trips`, `unplaced`, `upload`: what the owner does to the map
  - `photo`, `tiff`: what is read from photographs and made of them
  - `names`, `tiles`: addresses, geocoding and the map itself
  - `session`, `guestbook`, `privacy`, `share`, `reply`: who is asking, and what they get to see
  - `backup`, `migrate`, `settings`: the files on disk and the environment
- `tests/` runs the library, with the crates it calls.
- `app/` is the web server: HTTP, files, the network, and the arithmetic on coordinates.

## Running

The working directory needs `public/` (the front end) and a writable `data/`. HEIC photographs are
converted with `heif-convert`, if that is installed.

| Variable | Default | Meaning |
|---|---|---|
| `ADMIN_PASSWORD` | none | the owner's password; without one nobody can log in |
| `SITE_ORIGIN` | `https://atlas.sol42.cn` | the beginning of absolute addresses in shared pages |
| `DEMO_SEED` | off | `1` shows samples while the map is empty |
| `TILE_CACHE_MAX_MB` | `2048` | how much of the map tiles is kept |
| `IMPORT_MAX_MB` | `512` | how much a backup may unpack to |
| `BIND_ADDR` | `127.0.0.1` | the address to listen on |
| `PORT` | `8080` | the port to listen on |
| `OFM_STYLE`, `MAP_MODE` | `liberty`, `raster` | what the map looks like |
| `SITE_ICP` | none | the registration number that is shown |
