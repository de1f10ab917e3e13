# cplace

A slippy-map client that shows OpenStreetMap tiles, and the server of a
shared pixel canvas drawn over the map.

`src/` is the verified library:

- `map::tile`: tile ids, OSM tile URLs, column wrapping and row validity.
- `map::cache`: the LRU tile cache, one `lru::LruCache` per zoom level.
- `map::camera`: the tiles a view covers, from the integer window around the
  view's centre.
- `map::loader`: which tiles are being fetched; tile image decoding.
- `map`: which tiles a frame requests and which it draws.
- `server`: canvas chunks, their rendering into PNG overlay tiles, and the
  answers of the server's handlers.
- `codec`: image decoding and PNG encoding through the `image` crate.
- `text`: decimal rendering of integers.

`app/` is the windowed client around it: the floating-point camera, the
HTTP fetch thread, the wgpu renderer and the egui status bar, plus the
canvas server's storage handlers.
